use vstd::prelude::*;

use super::delete::sector_view;
use super::linedef::Linedef;
use super::sector::Sector;
use super::vertex::Vertex;
use super::delete::geometry_deleted;
use super::{add_unique, assign_all, first_id_index, linedef_ids, sector_ids, vertex_ids, GameMap};
use crate::util::extend_unique;

verus! {

broadcast use vstd::seq_lib::group_seq_properties;

/// The smallest id that `used` does not hold.
pub open spec fn min_free(used: Seq<u32>) -> u32 {
    choose|id: u32| !used.contains(id) && forall|j: u32| j < id ==> used.contains(j)
}

/// `n` ids handed out one after the other, each the smallest one not used yet.
pub open spec fn fresh_ids(used: Seq<u32>, n: nat) -> Seq<u32>
    decreases n,
{
    if n == 0 {
        Seq::empty()
    } else {
        let prev = fresh_ids(used, (n - 1) as nat);
        prev.push(min_free(used + prev))
    }
}

/// The last position of `id` in `ids`, or -1 when it does not occur.
pub open spec fn last_id_index(ids: Seq<u32>, id: u32) -> int {
    if ids.contains(id) {
        choose|i: int| 0 <= i < ids.len() && ids[i] == id && forall|j: int| i < j < ids.len() ==> ids[j] != id
    } else {
        -1
    }
}

/// The new id that the id `id` was given: `to` at the last position of `id` in `from`.
pub open spec fn renamed(from: Seq<u32>, to: Seq<u32>, id: u32) -> u32 {
    to[last_id_index(from, id)]
}

/// Copies of the vertices under the new ids.
pub open spec fn pasted_vertices(vs: Seq<Vertex>, ids: Seq<u32>) -> Seq<Vertex> {
    Seq::new(vs.len(), |k: int| Vertex { id: ids[k], ..vs[k] })
}

/// Copies of the linedefs under the new ids, joining the renamed vertices and
/// bounding no sector.
pub open spec fn pasted_linedefs(ls: Seq<Linedef>, ids: Seq<u32>, vfrom: Seq<u32>, vto: Seq<u32>) -> Seq<
    Linedef,
> {
    Seq::new(
        ls.len(),
        |k: int|
            Linedef {
                id: ids[k],
                start_vertex: renamed(vfrom, vto, ls[k].start_vertex),
                end_vertex: renamed(vfrom, vto, ls[k].end_vertex),
                front_sector: None,
                back_sector: None,
                ..ls[k]
            },
    )
}

/// A copy of sector `s` under id `sid`, made of the renamed linedefs.
pub open spec fn pasted_sector(s: Sector, sid: u32, lfrom: Seq<u32>, lto: Seq<u32>) -> (
    u32,
    Seq<char>,
    Seq<u32>,
    Seq<u32>,
    Option<u8>,
) {
    (sid, s.name@, s.linedefs@.map_values(|id: u32| renamed(lfrom, lto, id)), s.neighbours@, s.layer)
}

/// `ls` after each pasted sector, in order, was given to its (renamed) linedefs.
pub open spec fn assign_pasted(
    ls: Seq<Linedef>,
    ss: Seq<Sector>,
    sids: Seq<u32>,
    lfrom: Seq<u32>,
    lto: Seq<u32>,
) -> Seq<Linedef>
    decreases ss.len(),
{
    if ss.len() == 0 {
        ls
    } else {
        assign_all(
            assign_pasted(ls, ss.drop_last(), sids, lfrom, lto),
            ss.last().linedefs@.map_values(|id: u32| renamed(lfrom, lto, id)),
            sids[ss.len() - 1],
        )
    }
}


/// The first vertex with the given id.
pub open spec fn vertex_of(m: GameMap, id: u32) -> Vertex {
    m.vertices@[first_id_index(vertex_ids(m.vertices@), id)]
}

/// The first linedef with the given id.
pub open spec fn linedef_of(m: GameMap, id: u32) -> Linedef {
    m.linedefs@[first_id_index(linedef_ids(m.linedefs@), id)]
}

/// The first sector with the given id.
pub open spec fn sector_of(m: GameMap, id: u32) -> Sector {
    m.sectors@[first_id_index(sector_ids(m.sectors@), id)]
}

/// The ids of the selected sectors, each once.
pub open spec fn copied_sector_ids(m: GameMap) -> Seq<u32> {
    add_unique(Seq::empty(), m.selected_sectors@)
}

/// `acc` extended by the linedefs of each existing sector of `sids`, in order.
pub open spec fn gather_sector_linedefs(m: GameMap, acc: Seq<u32>, sids: Seq<u32>) -> Seq<u32>
    decreases sids.len(),
{
    if sids.len() == 0 {
        acc
    } else {
        let prev = gather_sector_linedefs(m, acc, sids.drop_last());
        if m.has_sector(sids.last()) {
            add_unique(prev, sector_of(m, sids.last()).linedefs@)
        } else {
            prev
        }
    }
}

/// The ids of the selected linedefs and of the linedefs of the selected sectors, each once.
pub open spec fn copied_linedef_ids(m: GameMap) -> Seq<u32> {
    gather_sector_linedefs(m, add_unique(Seq::empty(), m.selected_linedefs@), copied_sector_ids(m))
}

/// `acc` extended by the two ends of each existing linedef of `lids`, in order.
pub open spec fn gather_linedef_vertices(m: GameMap, acc: Seq<u32>, lids: Seq<u32>) -> Seq<u32>
    decreases lids.len(),
{
    if lids.len() == 0 {
        acc
    } else {
        let prev = gather_linedef_vertices(m, acc, lids.drop_last());
        if m.has_linedef(lids.last()) {
            let l = linedef_of(m, lids.last());
            add_unique(prev, seq![l.start_vertex, l.end_vertex])
        } else {
            prev
        }
    }
}

/// The ends of the copied linedefs and the selected vertices, each once.
pub open spec fn copied_vertex_ids(m: GameMap) -> Seq<u32> {
    add_unique(gather_linedef_vertices(m, Seq::empty(), copied_linedef_ids(m)), m.selected_vertices@)
}


/// The copied vertex ids that name an existing vertex.
pub open spec fn found_vertex_ids(m: GameMap) -> Seq<u32> {
    copied_vertex_ids(m).filter(|id: u32| m.has_vertex(id))
}

/// The copied linedef ids that name an existing linedef.
pub open spec fn found_linedef_ids(m: GameMap) -> Seq<u32> {
    copied_linedef_ids(m).filter(|id: u32| m.has_linedef(id))
}

/// The copied sector ids that name an existing sector.
pub open spec fn found_sector_ids(m: GameMap) -> Seq<u32> {
    copied_sector_ids(m).filter(|id: u32| m.has_sector(id))
}

/// The clipboard's vertices: copies of the found vertices, numbered from 0.
pub open spec fn clip_vertices(m: GameMap) -> Seq<Vertex> {
    let cv = found_vertex_ids(m);
    Seq::new(cv.len(), |k: int| Vertex { id: k as u32, ..vertex_of(m, cv[k]) })
}

/// The clipboard's linedefs: copies of the found linedefs, numbered from 0,
/// joining the renumbered vertices and bounding no sector.
pub open spec fn clip_linedefs(m: GameMap) -> Seq<Linedef> {
    let cl = found_linedef_ids(m);
    let cv = found_vertex_ids(m);
    Seq::new(
        cl.len(),
        |k: int|
            Linedef {
                id: k as u32,
                start_vertex: first_id_index(cv, linedef_of(m, cl[k]).start_vertex) as u32,
                end_vertex: first_id_index(cv, linedef_of(m, cl[k]).end_vertex) as u32,
                front_sector: None,
                back_sector: None,
                ..linedef_of(m, cl[k])
            },
    )
}

/// The clipboard's sectors: copies of the found sectors, numbered from 0, made
/// of the renumbered linedefs.
pub open spec fn clip_sectors(m: GameMap) -> Seq<(u32, Seq<char>, Seq<u32>, Seq<u32>, Option<u8>)> {
    let cs = found_sector_ids(m);
    let cl = found_linedef_ids(m);
    Seq::new(
        cs.len(),
        |k: int|
            (
                k as u32,
                sector_of(m, cs[k]).name@,
                sector_of(m, cs[k]).linedefs@.map_values(|id: u32| first_id_index(cl, id) as u32),
                sector_of(m, cs[k]).neighbours@,
                sector_of(m, cs[k]).layer,
            ),
    )
}

/// A list without duplicates whose elements all occur in `b` is no longer than `b`.
proof fn lemma_distinct_len_bound(a: Seq<u32>, b: Seq<u32>)
    requires
        a.no_duplicates(),
        forall|k: int| 0 <= k < a.len() ==> b.contains(#[trigger] a[k]),
    ensures
        a.len() <= b.len(),
{
    a.unique_seq_to_set();
    assert forall|x: u32| a.to_set().contains(x) implies b.to_set().contains(x) by {
        let k = choose|k: int| 0 <= k < a.len() && a[k] == x;
        assert(b.contains(a[k]));
    }
    b.lemma_cardinality_of_set();
    vstd::seq_lib::seq_to_set_is_finite(b);
    vstd::set_lib::lemma_len_subset(a.to_set(), b.to_set());
}


proof fn lemma_gather_sector_linedefs(m: GameMap, acc: Seq<u32>, sids: Seq<u32>)
    ensures
        acc.no_duplicates() ==> gather_sector_linedefs(m, acc, sids).no_duplicates(),
        forall|x: u32| acc.contains(x) ==> #[trigger] gather_sector_linedefs(m, acc, sids).contains(x),
        forall|k: int, j: int|
            0 <= k < sids.len() && m.has_sector(sids[k]) && 0 <= j < sector_of(m, sids[k]).linedefs@.len()
                ==> gather_sector_linedefs(m, acc, sids).contains(#[trigger] sector_of(m, sids[k]).linedefs@[j]),
    decreases sids.len(),
{
    if sids.len() > 0 {
        lemma_gather_sector_linedefs(m, acc, sids.drop_last());
        let prev = gather_sector_linedefs(m, acc, sids.drop_last());
        if m.has_sector(sids.last()) {
            super::lemma_add_unique(prev, sector_of(m, sids.last()).linedefs@);
        }
        let r = gather_sector_linedefs(m, acc, sids);
        assert forall|k: int, j: int|
            0 <= k < sids.len() && m.has_sector(sids[k]) && 0 <= j < sector_of(m, sids[k]).linedefs@.len()
                implies r.contains(#[trigger] sector_of(m, sids[k]).linedefs@[j]) by {
            if k < sids.len() - 1 {
                assert(sids.drop_last()[k] == sids[k]);
                assert(prev.contains(sector_of(m, sids.drop_last()[k]).linedefs@[j]));
            } else {
                assert(sector_of(m, sids.last()).linedefs@.contains(sector_of(m, sids[k]).linedefs@[j]));
            }
        }
    }
}

proof fn lemma_gather_linedef_vertices(m: GameMap, acc: Seq<u32>, lids: Seq<u32>)
    ensures
        acc.no_duplicates() ==> gather_linedef_vertices(m, acc, lids).no_duplicates(),
        forall|k: int|
            0 <= k < lids.len() && m.has_linedef(#[trigger] lids[k]) ==> gather_linedef_vertices(m, acc, lids).contains(
                linedef_of(m, lids[k]).start_vertex,
            ) && gather_linedef_vertices(m, acc, lids).contains(linedef_of(m, lids[k]).end_vertex),
    decreases lids.len(),
{
    if lids.len() > 0 {
        lemma_gather_linedef_vertices(m, acc, lids.drop_last());
        let prev = gather_linedef_vertices(m, acc, lids.drop_last());
        let l = linedef_of(m, lids.last());
        if m.has_linedef(lids.last()) {
            super::lemma_add_unique(prev, seq![l.start_vertex, l.end_vertex]);
            assert(seq![l.start_vertex, l.end_vertex][0] == l.start_vertex);
            assert(seq![l.start_vertex, l.end_vertex][1] == l.end_vertex);
        }
        let r = gather_linedef_vertices(m, acc, lids);
        assert forall|k: int| 0 <= k < lids.len() && m.has_linedef(#[trigger] lids[k]) implies r.contains(
            linedef_of(m, lids[k]).start_vertex,
        ) && r.contains(linedef_of(m, lids[k]).end_vertex) by {
            if k < lids.len() - 1 {
                assert(lids.drop_last()[k] == lids[k]);
            }
        }
    }
}

/// Fewer than 2^32 ids leave some `u32` free.
pub proof fn lemma_free_id_exists(ids: Seq<u32>)
    requires
        ids.len() < 0x1_0000_0000,
    ensures
        exists|j: u32| !ids.contains(j),
{
    if forall|j: u32| ids.contains(j) {
        let ints = ids.map_values(|x: u32| x as int);
        let range = vstd::set_lib::set_int_range(0, 0x1_0000_0000);
        vstd::set_lib::lemma_int_range(0, 0x1_0000_0000);
        assert forall|i: int| range.contains(i) implies ints.to_set().contains(i) by {
            let j = i as u32;
            assert(ids.contains(j));
            let k = choose|k: int| 0 <= k < ids.len() && ids[k] == j;
            assert(ints[k] == i);
        }
        ints.lemma_cardinality_of_set();
        vstd::seq_lib::seq_to_set_is_finite(ints);
        vstd::set_lib::lemma_len_subset(range, ints.to_set());
    }
}

/// The smallest free id is the only id that is free while every smaller one is used.
pub proof fn lemma_min_free(used: Seq<u32>, id: u32)
    requires
        !used.contains(id),
        forall|j: u32| j < id ==> used.contains(j),
    ensures
        min_free(used) == id,
{
    let r = min_free(used);
    assert(!used.contains(r) && forall|j: u32| j < r ==> used.contains(j));
    if r < id {
        assert(used.contains(r));
    }
    if id < r {
        assert(used.contains(id));
    }
}

/// Unfolds `fresh_ids` by one id.
proof fn lemma_fresh_ids_step(used: Seq<u32>, n: nat)
    ensures
        fresh_ids(used, n + 1) == fresh_ids(used, n).push(min_free(used + fresh_ids(used, n))),
        fresh_ids(used, n).len() == n,
    decreases n,
{
    if n > 0 {
        lemma_fresh_ids_step(used, (n - 1) as nat);
    }
}

/// Below any id that `used` lacks there is a smallest one that it lacks.
proof fn lemma_least_free_exists(used: Seq<u32>, id: u32)
    requires
        !used.contains(id),
    ensures
        !used.contains(min_free(used)),
        forall|j: u32| j < min_free(used) ==> used.contains(j),
    decreases id,
{
    if forall|j: u32| j < id ==> used.contains(j) {
        lemma_min_free(used, id);
    } else {
        let k = choose|j: u32| j < id && !used.contains(j);
        lemma_least_free_exists(used, k);
    }
}

/// Ids handed out for pasted elements are new: none of them is already used,
/// and no two of them are the same.
pub proof fn lemma_fresh_ids_are_new(used: Seq<u32>, n: nat)
    requires
        used.len() + n <= 0x1_0000_0000,
    ensures
        fresh_ids(used, n).len() == n,
        forall|k: int| 0 <= k < n ==> !used.contains(#[trigger] fresh_ids(used, n)[k]),
        forall|i: int, j: int| 0 <= i < j < n ==> fresh_ids(used, n)[i] != fresh_ids(used, n)[j],
    decreases n,
{
    if n > 0 {
        let m = (n - 1) as nat;
        lemma_fresh_ids_are_new(used, m);
        let prev = fresh_ids(used, m);
        lemma_free_id_exists(used + prev);
        let free = choose|j: u32| !(used + prev).contains(j);
        lemma_least_free_exists(used + prev, free);
        let id = min_free(used + prev);
        assert(!used.contains(id)) by {
            if used.contains(id) {
                let p = choose|p: int| 0 <= p < used.len() && used[p] == id;
                assert((used + prev)[p] == id);
            }
        }
        assert(!prev.contains(id)) by {
            if prev.contains(id) {
                let p = choose|p: int| 0 <= p < prev.len() && prev[p] == id;
                assert((used + prev)[used.len() + p] == id);
            }
        }
        assert(fresh_ids(used, n) == prev.push(id));
    }
}

/// The first position of `x` in `v`.
pub fn position_of(v: &Vec<u32>, x: u32) -> (r: Option<usize>)
    ensures
        match r {
            Some(i) => i as int == first_id_index(v@, x) && i < v@.len(),
            None => !v@.contains(x),
        },
{
    let mut i: usize = 0;
    while i < v.len() && v[i] != x
        invariant
            i <= v@.len(),
            forall|j: int| 0 <= j < i ==> v@[j] != x,
        decreases v@.len() - i,
    {
        i += 1;
    }
    proof {
        super::lemma_first_id_index_contains(v@, x);
        if i < v@.len() {
            assert(super::is_first_id(v@, x, i as int));
            assert(v@.contains(x));
        }
    }
    if i < v.len() {
        Some(i)
    } else {
        None
    }
}

/// The new id that `id` was given, looked up by its last occurrence in `from`.
pub fn lookup_renamed(from: &Vec<u32>, to: &Vec<u32>, id: u32) -> (r: Option<u32>)
    requires
        from@.len() == to@.len(),
    ensures
        from@.contains(id) ==> r == Some(renamed(from@, to@, id)),
        !from@.contains(id) ==> r is None,
{
    let mut i: usize = from.len();
    while i > 0
        invariant
            i <= from@.len(),
            from@.len() == to@.len(),
            forall|j: int| i <= j < from@.len() ==> from@[j] != id,
        decreases i,
    {
        if from[i - 1] == id {
            proof {
                let k = (i - 1) as int;
                assert(from@.contains(id));
                let c = last_id_index(from@, id);
                assert(0 <= c < from@.len() && from@[c] == id && forall|j: int|
                    c < j < from@.len() ==> from@[j] != id);
                if c < k {
                    assert(from@[k] == id);
                }
                if k < c {
                    assert(from@[c] != id);
                }
            }
            return Some(to[i - 1]);
        }
        i -= 1;
    }
    None
}

/// `assign_pasted` only reads the sector ids of the sectors it is given.
proof fn lemma_assign_pasted_prefix(
    ls: Seq<Linedef>,
    ss: Seq<Sector>,
    a: Seq<u32>,
    b: Seq<u32>,
    lfrom: Seq<u32>,
    lto: Seq<u32>,
)
    requires
        ss.len() <= a.len(),
        ss.len() <= b.len(),
        forall|q: int| 0 <= q < ss.len() ==> a[q] == b[q],
    ensures
        assign_pasted(ls, ss, a, lfrom, lto) == assign_pasted(ls, ss, b, lfrom, lto),
    decreases ss.len(),
{
    if ss.len() > 0 {
        lemma_assign_pasted_prefix(ls, ss.drop_last(), a, b, lfrom, lto);
    }
}

/// Sector linedef ids renumbered by their position in `found_l`; none when
/// one of them does not occur there.
fn renumber_linedefs(ids: &Vec<u32>, found_l: &Vec<u32>) -> (r: Option<Vec<u32>>)
    requires
        found_l@.len() < 0x1_0000_0000,
    ensures
        r matches Some(v) ==> v@ == ids@.map_values(|id: u32| first_id_index(found_l@, id) as u32),
        (forall|j: int| 0 <= j < ids@.len() ==> found_l@.contains(#[trigger] ids@[j])) ==> r is Some,
{
    let mut out: Vec<u32> = Vec::new();
    let mut j: usize = 0;
    while j < ids.len()
        invariant
            j <= ids@.len(),
            found_l@.len() < 0x1_0000_0000,
            out@ == ids@.take(j as int).map_values(|id: u32| first_id_index(found_l@, id) as u32),
            forall|q: int| 0 <= q < j ==> found_l@.contains(#[trigger] ids@[q]),
        decreases ids@.len() - j,
    {
        match position_of(found_l, ids[j]) {
            Some(p) => {
                out.push(p as u32);
            },
            None => {
                return None;
            },
        }
        j += 1;
        assert(out@ =~= ids@.take(j as int).map_values(|id: u32| first_id_index(found_l@, id) as u32));
    }
    assert(ids@.take(j as int) =~= ids@);
    Some(out)
}

impl GameMap {
    /// Appends copies of `vs` under fresh vertex ids and selects them; returns
    /// the old ids and the new ids, position by position.
    #[verifier::rlimit(50)]
    fn paste_vertices(&mut self, vs: &Vec<Vertex>) -> (r: (Vec<u32>, Vec<u32>))
        requires
            old(self).vertices@.len() + vs@.len() < 0x1_0000_0000,
        ensures
            r.0@ == vertex_ids(vs@),
            r.0@.len() == r.1@.len(),
            r.1@ == fresh_ids(vertex_ids(old(self).vertices@), vs@.len()),
            final(self).vertices@ == old(self).vertices@ + pasted_vertices(vs@, r.1@),
            final(self).selected_vertices@ == old(self).selected_vertices@ + r.1@,
            final(self).linedefs == old(self).linedefs,
            final(self).sectors == old(self).sectors,
            final(self).possible_polygon == old(self).possible_polygon,
            final(self).id == old(self).id,
            final(self).name == old(self).name,
            final(self).camera == old(self).camera,
            final(self).changed == old(self).changed,
            final(self).selected_linedefs == old(self).selected_linedefs,
            final(self).selected_sectors == old(self).selected_sectors,
            final(self).selected_light == old(self).selected_light,
            final(self).selected_entity_item == old(self).selected_entity_item,
    {
        let ghost used = vertex_ids(old(self).vertices@);
        let mut from: Vec<u32> = Vec::new();
        let mut to: Vec<u32> = Vec::new();
        let mut k: usize = 0;
        while k < vs.len()
            invariant
                k <= vs@.len(),
                old(self).vertices@.len() + vs@.len() < 0x1_0000_0000,
                used == vertex_ids(old(self).vertices@),
                from@ == vertex_ids(vs@.take(k as int)),
                to@ == fresh_ids(used, k as nat),
                to@.len() == k,
                self.selected_vertices@ == old(self).selected_vertices@ + to@,
                self.vertices@ == old(self).vertices@ + pasted_vertices(vs@.take(k as int), to@),
                vertex_ids(self.vertices@) == used + to@,
                self.linedefs == old(self).linedefs,
                self.sectors == old(self).sectors,
                self.possible_polygon == old(self).possible_polygon,
                self.id == old(self).id,
                self.name == old(self).name,
                self.camera == old(self).camera,
                self.changed == old(self).changed,
                self.selected_linedefs == old(self).selected_linedefs,
                self.selected_sectors == old(self).selected_sectors,
                self.selected_light == old(self).selected_light,
                self.selected_entity_item == old(self).selected_entity_item,
            decreases vs@.len() - k,
        {
            proof {
                lemma_fresh_ids_step(used, k as nat);
                lemma_free_id_exists(vertex_ids(self.vertices@));
            }
            let new_id = match self.find_free_vertex_id() {
                Some(id) => id,
                None => {
                    proof {
                        let j = choose|j: u32| !vertex_ids(self.vertices@).contains(j);
                        assert(self.has_vertex(j));
                    }
                    return (from, to);
                },
            };
            proof {
                assert forall|j: u32| j < new_id implies (used + to@).contains(j) by {
                    assert(self.has_vertex(j));
                }
                assert(!(used + to@).contains(new_id)) by {
                    assert(!self.has_vertex(new_id));
                }
                lemma_min_free(used + to@, new_id);
            }
            let v = &vs[k];
            let nv = Vertex { id: new_id, name: v.name.clone(), x_bits: v.x_bits, y_bits: v.y_bits, z_bits: v.z_bits };
            let ghost old_to = to@;
            self.vertices.push(nv);
            self.selected_vertices.push(new_id);
            from.push(v.id);
            to.push(new_id);
            k += 1;
            proof {
                assert(vs@.take(k as int) =~= vs@.take(k - 1).push(vs@[k - 1]));
                assert(from@ =~= vertex_ids(vs@.take(k as int)));
                assert(to@ == fresh_ids(used, k as nat));
                assert(pasted_vertices(vs@.take(k as int), to@) =~= pasted_vertices(
                    vs@.take(k - 1),
                    old_to,
                ).push(nv));
                assert(self.vertices@ =~= old(self).vertices@ + pasted_vertices(vs@.take(k as int), to@));
                assert(self.selected_vertices@ =~= old(self).selected_vertices@ + to@);
                assert(vertex_ids(self.vertices@) =~= used + to@);
            }
        }
        proof {
            assert(vs@.take(k as int) =~= vs@);
        }
        (from, to)
    }

    /// Appends copies of `ls` under fresh linedef ids, joining the renamed
    /// vertices and bounding no sector, and selects them; returns the old ids
    /// and the new ids, position by position.
    #[verifier::rlimit(50)]
    fn paste_linedefs(&mut self, ls: &Vec<Linedef>, vfrom: &Vec<u32>, vto: &Vec<u32>) -> (r: (
        Vec<u32>,
        Vec<u32>,
    ))
        requires
            vfrom@.len() == vto@.len(),
            old(self).linedefs@.len() + ls@.len() < 0x1_0000_0000,
            forall|k: int|
                0 <= k < ls@.len() ==> vfrom@.contains((#[trigger] ls@[k]).start_vertex) && vfrom@.contains(
                    ls@[k].end_vertex,
                ),
        ensures
            r.0@ == linedef_ids(ls@),
            r.0@.len() == r.1@.len(),
            r.1@ == fresh_ids(linedef_ids(old(self).linedefs@), ls@.len()),
            final(self).linedefs@ == old(self).linedefs@ + pasted_linedefs(ls@, r.1@, vfrom@, vto@),
            final(self).selected_linedefs@ == old(self).selected_linedefs@ + r.1@,
            final(self).vertices == old(self).vertices,
            final(self).sectors == old(self).sectors,
            final(self).possible_polygon == old(self).possible_polygon,
            final(self).id == old(self).id,
            final(self).name == old(self).name,
            final(self).camera == old(self).camera,
            final(self).changed == old(self).changed,
            final(self).selected_vertices == old(self).selected_vertices,
            final(self).selected_sectors == old(self).selected_sectors,
            final(self).selected_light == old(self).selected_light,
            final(self).selected_entity_item == old(self).selected_entity_item,
    {
        let ghost used = linedef_ids(old(self).linedefs@);
        let mut from: Vec<u32> = Vec::new();
        let mut to: Vec<u32> = Vec::new();
        let mut k: usize = 0;
        while k < ls.len()
            invariant
                k <= ls@.len(),
                vfrom@.len() == vto@.len(),
                forall|q: int|
                    0 <= q < ls@.len() ==> vfrom@.contains((#[trigger] ls@[q]).start_vertex)
                        && vfrom@.contains(ls@[q].end_vertex),
                old(self).linedefs@.len() + ls@.len() < 0x1_0000_0000,
                used == linedef_ids(old(self).linedefs@),
                from@ == linedef_ids(ls@.take(k as int)),
                to@ == fresh_ids(used, k as nat),
                to@.len() == k,
                self.selected_linedefs@ == old(self).selected_linedefs@ + to@,
                self.linedefs@ == old(self).linedefs@ + pasted_linedefs(ls@.take(k as int), to@, vfrom@, vto@),
                linedef_ids(self.linedefs@) == used + to@,
                self.vertices == old(self).vertices,
                self.sectors == old(self).sectors,
                self.possible_polygon == old(self).possible_polygon,
                self.id == old(self).id,
                self.name == old(self).name,
                self.camera == old(self).camera,
                self.changed == old(self).changed,
                self.selected_vertices == old(self).selected_vertices,
                self.selected_sectors == old(self).selected_sectors,
                self.selected_light == old(self).selected_light,
                self.selected_entity_item == old(self).selected_entity_item,
            decreases ls@.len() - k,
        {
            proof {
                lemma_fresh_ids_step(used, k as nat);
                lemma_free_id_exists(linedef_ids(self.linedefs@));
            }
            let new_id = match self.find_free_linedef_id() {
                Some(id) => id,
                None => {
                    proof {
                        let j = choose|j: u32| !linedef_ids(self.linedefs@).contains(j);
                        assert(self.has_linedef(j));
                    }
                    return (from, to);
                },
            };
            proof {
                assert forall|j: u32| j < new_id implies (used + to@).contains(j) by {
                    assert(self.has_linedef(j));
                }
                assert(!(used + to@).contains(new_id)) by {
                    assert(!self.has_linedef(new_id));
                }
                lemma_min_free(used + to@, new_id);
            }
            let l = &ls[k];
            let start = match lookup_renamed(vfrom, vto, l.start_vertex) {
                Some(v) => v,
                None => {
                    assert(vfrom@.contains(ls@[k as int].start_vertex));
                    return (from, to);
                },
            };
            let end = match lookup_renamed(vfrom, vto, l.end_vertex) {
                Some(v) => v,
                None => {
                    assert(vfrom@.contains(ls@[k as int].end_vertex));
                    return (from, to);
                },
            };
            let nl = Linedef {
                id: new_id,
                creator_id: l.creator_id,
                name: l.name.clone(),
                start_vertex: start,
                end_vertex: end,
                front_sector: None,
                back_sector: None,
            };
            let ghost old_to = to@;
            self.linedefs.push(nl);
            self.selected_linedefs.push(new_id);
            from.push(l.id);
            to.push(new_id);
            k += 1;
            proof {
                assert(ls@.take(k as int) =~= ls@.take(k - 1).push(ls@[k - 1]));
                assert(from@ =~= linedef_ids(ls@.take(k as int)));
                assert(to@ == fresh_ids(used, k as nat));
                assert(pasted_linedefs(ls@.take(k as int), to@, vfrom@, vto@) =~= pasted_linedefs(
                    ls@.take(k - 1),
                    old_to,
                    vfrom@,
                    vto@,
                ).push(nl));
                assert(self.linedefs@ =~= old(self).linedefs@ + pasted_linedefs(
                    ls@.take(k as int),
                    to@,
                    vfrom@,
                    vto@,
                ));
                assert(self.selected_linedefs@ =~= old(self).selected_linedefs@ + to@);
                assert(linedef_ids(self.linedefs@) =~= used + to@);
            }
        }
        proof {
            assert(ls@.take(k as int) =~= ls@);
        }
        (from, to)
    }

    /// Appends copies of `ss` under fresh sector ids, made of the renamed
    /// linedefs, gives each to its linedefs as front or back sector, and
    /// selects them.
    #[verifier::rlimit(50)]
    fn paste_sectors(&mut self, ss: &Vec<Sector>, lfrom: &Vec<u32>, lto: &Vec<u32>)
        requires
            lfrom@.len() == lto@.len(),
            old(self).sectors@.len() + ss@.len() < 0x1_0000_0000,
            forall|k: int, j: int|
                0 <= k < ss@.len() && 0 <= j < ss@[k].linedefs@.len() ==> lfrom@.contains(
                    #[trigger] ss@[k].linedefs@[j],
                ),
        ensures
            ({
                let fs = fresh_ids(sector_ids(old(self).sectors@), ss@.len());
                &&& final(self).linedefs@ == assign_pasted(old(self).linedefs@, ss@, fs, lfrom@, lto@)
                &&& final(self).sectors@.map_values(|s: Sector| sector_view(s)) == old(
                    self,
                ).sectors@.map_values(|s: Sector| sector_view(s)) + Seq::new(
                    ss@.len(),
                    |k: int| pasted_sector(ss@[k], fs[k], lfrom@, lto@),
                )
                &&& final(self).selected_sectors@ == old(self).selected_sectors@ + fs
            }),
            final(self).vertices == old(self).vertices,
            final(self).possible_polygon == old(self).possible_polygon,
            final(self).id == old(self).id,
            final(self).name == old(self).name,
            final(self).camera == old(self).camera,
            final(self).changed == old(self).changed,
            final(self).selected_vertices == old(self).selected_vertices,
            final(self).selected_linedefs == old(self).selected_linedefs,
            final(self).selected_light == old(self).selected_light,
            final(self).selected_entity_item == old(self).selected_entity_item,
    {
        let ghost used = sector_ids(old(self).sectors@);
        let ghost view = |s: Sector| sector_view(s);
        let mut to: Vec<u32> = Vec::new();
        let mut k: usize = 0;
        while k < ss.len()
            invariant
                k <= ss@.len(),
                view == (|s: Sector| sector_view(s)),
                lfrom@.len() == lto@.len(),
                forall|q: int, j: int|
                    0 <= q < ss@.len() && 0 <= j < ss@[q].linedefs@.len() ==> lfrom@.contains(
                        #[trigger] ss@[q].linedefs@[j],
                    ),
                old(self).sectors@.len() + ss@.len() < 0x1_0000_0000,
                used == sector_ids(old(self).sectors@),
                to@ == fresh_ids(used, k as nat),
                to@.len() == k,
                self.selected_sectors@ == old(self).selected_sectors@ + to@,
                self.linedefs@ == assign_pasted(old(self).linedefs@, ss@.take(k as int), to@, lfrom@, lto@),
                self.sectors@.map_values(view) == old(self).sectors@.map_values(view) + Seq::new(
                    k as nat,
                    |q: int| pasted_sector(ss@[q], to@[q], lfrom@, lto@),
                ),
                self.sectors@.len() == old(self).sectors@.len() + k,
                sector_ids(self.sectors@) == used + to@,
                self.vertices == old(self).vertices,
                self.possible_polygon == old(self).possible_polygon,
                self.id == old(self).id,
                self.name == old(self).name,
                self.camera == old(self).camera,
                self.changed == old(self).changed,
                self.selected_vertices == old(self).selected_vertices,
                self.selected_linedefs == old(self).selected_linedefs,
                self.selected_light == old(self).selected_light,
                self.selected_entity_item == old(self).selected_entity_item,
            decreases ss@.len() - k,
        {
            proof {
                lemma_fresh_ids_step(used, k as nat);
                assert(sector_ids(self.sectors@).len() == self.sectors@.len());
                lemma_free_id_exists(sector_ids(self.sectors@));
            }
            let new_id = match self.find_free_sector_id() {
                Some(id) => id,
                None => {
                    proof {
                        let j = choose|j: u32| !sector_ids(self.sectors@).contains(j);
                        assert(self.has_sector(j));
                    }
                    return;
                },
            };
            proof {
                assert forall|j: u32| j < new_id implies (used + to@).contains(j) by {
                    assert(self.has_sector(j));
                }
                assert(!(used + to@).contains(new_id)) by {
                    assert(!self.has_sector(new_id));
                }
                lemma_min_free(used + to@, new_id);
            }
            let s = &ss[k];
            let ghost ren = |id: u32| renamed(lfrom@, lto@, id);
            let ghost start = self.linedefs@;
            let ghost sec0 = self.sectors;
            let mut mapped: Vec<u32> = Vec::new();
            let mut j: usize = 0;
            while j < s.linedefs.len()
                invariant
                    j <= s.linedefs@.len(),
                    s == ss@[k as int],
                    ren == (|id: u32| renamed(lfrom@, lto@, id)),
                    lfrom@.len() == lto@.len(),
                    forall|q: int|
                        0 <= q < s.linedefs@.len() ==> lfrom@.contains(#[trigger] s.linedefs@[q]),
                    mapped@ == s.linedefs@.take(j as int).map_values(ren),
                    self.linedefs@ == assign_all(start, mapped@, new_id),
                    self.vertices == old(self).vertices,
                    self.sectors == sec0,
                    self.possible_polygon == old(self).possible_polygon,
                    self.id == old(self).id,
                    self.name == old(self).name,
                    self.camera == old(self).camera,
                    self.changed == old(self).changed,
                    self.selected_vertices == old(self).selected_vertices,
                    self.selected_linedefs == old(self).selected_linedefs,
                    self.selected_sectors@ == old(self).selected_sectors@ + to@,
                    self.selected_light == old(self).selected_light,
                    self.selected_entity_item == old(self).selected_entity_item,
                decreases s.linedefs@.len() - j,
            {
                let lid = match lookup_renamed(lfrom, lto, s.linedefs[j]) {
                    Some(x) => x,
                    None => {
                        assert(lfrom@.contains(s.linedefs@[j as int]));
                        return;
                    },
                };
                self.assign_sector_to_linedef(lid, new_id);
                let ghost before = mapped@;
                mapped.push(lid);
                j += 1;
                proof {
                    assert(s.linedefs@.take(j as int) =~= s.linedefs@.take(j - 1).push(s.linedefs@[j - 1]));
                    assert(mapped@ =~= s.linedefs@.take(j as int).map_values(ren));
                    assert(mapped@.drop_last() =~= before);
                }
            }
            proof {
                assert(s.linedefs@.take(j as int) =~= s.linedefs@);
            }
            let ns = Sector {
                id: new_id,
                name: s.name.clone(),
                linedefs: mapped,
                neighbours: s.neighbours.clone(),
                layer: s.layer,
            };
            let ghost old_to = to@;
            let ghost old_sectors = self.sectors@;
            self.sectors.push(ns);
            self.selected_sectors.push(new_id);
            to.push(new_id);
            k += 1;
            proof {
                assert(to@ == fresh_ids(used, k as nat));
                assert(ss@.take(k as int).drop_last() =~= ss@.take(k - 1));
                assert(ss@.take(k as int).last() == ss@[k - 1]);
                assert forall|q: int| 0 <= q < k - 1 implies #[trigger] to@[q] == old_to[q] by {}
                assert(assign_pasted(start, Seq::empty(), to@, lfrom@, lto@) == start);
                lemma_assign_pasted_prefix(old(self).linedefs@, ss@.take(k - 1), old_to, to@, lfrom@, lto@);
                assert(sector_view(ns) == pasted_sector(ss@[k - 1], to@[k - 1], lfrom@, lto@));
                assert(self.sectors@.map_values(view) =~= old_sectors.map_values(view).push(sector_view(ns)));
                assert(Seq::new(k as nat, |q: int| pasted_sector(ss@[q], to@[q], lfrom@, lto@)) =~= Seq::new(
                    (k - 1) as nat,
                    |q: int| pasted_sector(ss@[q], old_to[q], lfrom@, lto@),
                ).push(pasted_sector(ss@[k - 1], to@[k - 1], lfrom@, lto@)));
                assert(self.sectors@.map_values(view) =~= old(self).sectors@.map_values(view) + Seq::new(
                    k as nat,
                    |q: int| pasted_sector(ss@[q], to@[q], lfrom@, lto@),
                ));
                assert(self.selected_sectors@ =~= old(self).selected_sectors@ + to@);
                assert(self.sectors@ == old_sectors.push(ns));
                assert(sector_ids(self.sectors@) =~= sector_ids(old_sectors).push(new_id));
                assert(sector_ids(self.sectors@) =~= used + to@);
            }
        }
        proof {
            assert(ss@.take(k as int) =~= ss@);
        }
    }

    /// Pastes a clipboard map: its vertices, linedefs and sectors are added
    /// under fresh ids (each the smallest free one at its turn), linedefs join
    /// the renamed vertices, sectors are made of the renamed linedefs and are
    /// given to them as front or back sector, and the selection becomes exactly
    /// the pasted geometry. The clipboard's positions are pasted as they are.
    pub fn paste(&mut self, local: &GameMap)
        requires
            forall|k: int|
                0 <= k < local.linedefs@.len() ==> local.has_vertex(
                    (#[trigger] local.linedefs@[k]).start_vertex,
                ) && local.has_vertex(local.linedefs@[k].end_vertex),
            forall|k: int, j: int|
                0 <= k < local.sectors@.len() && 0 <= j < local.sectors@[k].linedefs@.len()
                    ==> local.has_linedef(#[trigger] local.sectors@[k].linedefs@[j]),
            old(self).vertices@.len() + local.vertices@.len() < 0x1_0000_0000,
            old(self).linedefs@.len() + local.linedefs@.len() < 0x1_0000_0000,
            old(self).sectors@.len() + local.sectors@.len() < 0x1_0000_0000,
        ensures
            ({
                let fv = fresh_ids(vertex_ids(old(self).vertices@), local.vertices@.len());
                let fl = fresh_ids(linedef_ids(old(self).linedefs@), local.linedefs@.len());
                let fs = fresh_ids(sector_ids(old(self).sectors@), local.sectors@.len());
                let lfrom = linedef_ids(local.linedefs@);
                &&& final(self).vertices@ == old(self).vertices@ + pasted_vertices(local.vertices@, fv)
                &&& final(self).linedefs@ == assign_pasted(
                    old(self).linedefs@ + pasted_linedefs(
                        local.linedefs@,
                        fl,
                        vertex_ids(local.vertices@),
                        fv,
                    ),
                    local.sectors@,
                    fs,
                    lfrom,
                    fl,
                )
                &&& final(self).sectors@.map_values(|s: Sector| sector_view(s)) == old(
                    self,
                ).sectors@.map_values(|s: Sector| sector_view(s)) + Seq::new(
                    local.sectors@.len(),
                    |k: int| pasted_sector(local.sectors@[k], fs[k], lfrom, fl),
                )
                &&& final(self).selected_vertices@ == fv
                &&& final(self).selected_linedefs@ == fl
                &&& final(self).selected_sectors@ == fs
            }),
            final(self).selected_light is None,
            final(self).selected_entity_item is None,
            final(self).possible_polygon == old(self).possible_polygon,
            final(self).id == old(self).id,
            final(self).name == old(self).name,
            final(self).camera == old(self).camera,
            final(self).changed == old(self).changed,
    {
        self.clear_selection();
        let (vfrom, vto) = self.paste_vertices(&local.vertices);
        proof {
            assert forall|k: int| 0 <= k < local.linedefs@.len() implies vfrom@.contains(
                (#[trigger] local.linedefs@[k]).start_vertex,
            ) && vfrom@.contains(local.linedefs@[k].end_vertex) by {
                assert(local.has_vertex(local.linedefs@[k].start_vertex));
                assert(local.has_vertex(local.linedefs@[k].end_vertex));
            }
        }
        let (lfrom, lto) = self.paste_linedefs(&local.linedefs, &vfrom, &vto);
        proof {
            assert forall|k: int, j: int|
                0 <= k < local.sectors@.len() && 0 <= j < local.sectors@[k].linedefs@.len()
                    implies lfrom@.contains(#[trigger] local.sectors@[k].linedefs@[j]) by {
                assert(local.has_linedef(local.sectors@[k].linedefs@[j]));
            }
        }
        self.paste_sectors(&local.sectors, &lfrom, &lto);
        proof {
            assert(self.selected_vertices@ =~= vto@);
            assert(self.selected_linedefs@ =~= lto@);
        }
    }

    /// The ids of the sectors, linedefs and vertices that a copy of the
    /// selection takes, each list without duplicates.
    fn collect_copy_ids(&self) -> (r: (Vec<u32>, Vec<u32>, Vec<u32>))
        ensures
            r.0@ == copied_vertex_ids(*self),
            r.1@ == copied_linedef_ids(*self),
            r.2@ == copied_sector_ids(*self),
    {
        let mut sids: Vec<u32> = Vec::new();
        extend_unique(&mut sids, &self.selected_sectors);
        let mut lids: Vec<u32> = Vec::new();
        extend_unique(&mut lids, &self.selected_linedefs);
        let ghost lstart = lids@;
        let mut k: usize = 0;
        while k < sids.len()
            invariant
                k <= sids@.len(),
                sids@ == copied_sector_ids(*self),
                lstart == add_unique(Seq::empty(), self.selected_linedefs@),
                lids@ == gather_sector_linedefs(*self, lstart, sids@.take(k as int)),
            decreases sids@.len() - k,
        {
            assert(sids@.take(k + 1).drop_last() =~= sids@.take(k as int));
            match self.sector_index(sids[k]) {
                Some(i) => {
                    extend_unique(&mut lids, &self.sectors[i].linedefs);
                },
                None => {},
            }
            k += 1;
        }
        assert(sids@.take(k as int) =~= sids@);
        let mut vids: Vec<u32> = Vec::new();
        let mut j: usize = 0;
        while j < lids.len()
            invariant
                j <= lids@.len(),
                lids@ == copied_linedef_ids(*self),
                vids@ == gather_linedef_vertices(*self, Seq::empty(), lids@.take(j as int)),
            decreases lids@.len() - j,
        {
            assert(lids@.take(j + 1).drop_last() =~= lids@.take(j as int));
            match self.linedef_index(lids[j]) {
                Some(i) => {
                    let ends = vec![self.linedefs[i].start_vertex, self.linedefs[i].end_vertex];
                    assert(ends@ =~= seq![self.linedefs@[i as int].start_vertex, self.linedefs@[i as int].end_vertex]);
                    extend_unique(&mut vids, &ends);
                },
                None => {},
            }
            j += 1;
        }
        assert(lids@.take(j as int) =~= lids@);
        extend_unique(&mut vids, &self.selected_vertices);
        (vids, lids, sids)
    }

    /// Copies the existing vertices among `vids` into the empty clipboard
    /// vertex list under ids 0, 1, ..; returns the ids that were found.
    #[verifier::rlimit(50)]
    fn copy_vertices_into(&self, vids: &Vec<u32>, clip: &mut GameMap) -> (found: Vec<u32>)
        requires
            old(clip).vertices@.len() == 0,
            vids@.no_duplicates(),
            self.vertices@.len() < 0x1_0000_0000,
        ensures
            found@ == vids@.filter(|id: u32| self.has_vertex(id)),
            found@.no_duplicates(),
            final(clip).vertices@ == Seq::new(
                found@.len(),
                |k: int| Vertex { id: k as u32, ..vertex_of(*self, found@[k]) },
            ),
            final(clip).linedefs == old(clip).linedefs,
            final(clip).sectors == old(clip).sectors,
            super::same_settings(*old(clip), *final(clip)),
            final(clip).possible_polygon == old(clip).possible_polygon,
    {
        let ghost pred = |id: u32| self.has_vertex(id);
        let mut found: Vec<u32> = Vec::new();
        let mut k: usize = 0;
        while k < vids.len()
            invariant
                k <= vids@.len(),
                vids@.no_duplicates(),
                self.vertices@.len() < 0x1_0000_0000,
                pred == (|id: u32| self.has_vertex(id)),
                found@ == vids@.take(k as int).filter(pred),
                found@.no_duplicates(),
                forall|i: int| 0 <= i < found@.len() ==> vids@.take(k as int).contains(#[trigger] found@[i]),
                forall|i: int| 0 <= i < found@.len() ==> self.has_vertex(#[trigger] found@[i]),
                clip.vertices@ == Seq::new(
                    found@.len(),
                    |q: int| Vertex { id: q as u32, ..vertex_of(*self, found@[q]) },
                ),
                vertex_ids(clip.vertices@) == Seq::new(found@.len(), |q: int| q as u32),
                clip.linedefs == old(clip).linedefs,
                clip.sectors == old(clip).sectors,
                super::same_settings(*old(clip), *clip),
                clip.possible_polygon == old(clip).possible_polygon,
            decreases vids@.len() - k,
        {
            proof {
                assert(vids@.take(k + 1) =~= vids@.take(k as int).push(vids@[k as int]));
                vids@.take(k as int).lemma_filter_push(vids@[k as int], pred);
                lemma_distinct_len_bound(found@, vertex_ids(self.vertices@));
                assert(vertex_ids(self.vertices@).len() == self.vertices@.len());
            }
            let id = vids[k];
            match self.vertex_index(id) {
                Some(i) => {
                    let n: u32 = found.len() as u32;
                    let new_id = match clip.find_free_vertex_id() {
                        Some(x) => x,
                        None => {
                            assert(!clip.has_vertex(n));
                            return found;
                        },
                    };
                    proof {
                        if new_id < n {
                            assert(vertex_ids(clip.vertices@)[new_id as int] == new_id);
                        }
                        if new_id > n {
                            assert(clip.has_vertex(n));
                            let q = choose|q: int| 0 <= q < vertex_ids(clip.vertices@).len() && vertex_ids(clip.vertices@)[q] == n;
                        }
                    }
                    let v = &self.vertices[i];
                    let nv = Vertex { id: new_id, name: v.name.clone(), x_bits: v.x_bits, y_bits: v.y_bits, z_bits: v.z_bits };
                    let ghost before = found@;
                    clip.vertices.push(nv);
                    found.push(id);
                    proof {
                        assert forall|a: int, b: int| 0 <= a < b < found@.len() implies found@[a] != found@[b] by {
                            if b == before.len() {
                                let t0 = vids@.take(k as int);
                                assert(t0.contains(found@[a]));
                                let w = choose|w: int| 0 <= w < t0.len() && #[trigger] t0[w] == found@[a];
                                assert(vids@[w] == found@[a]);
                            }
                        }
                        assert(clip.vertices@ =~= Seq::new(
                            found@.len(),
                            |q: int| Vertex { id: q as u32, ..vertex_of(*self, found@[q]) },
                        ));
                        assert(vertex_ids(clip.vertices@) =~= Seq::new(found@.len(), |q: int| q as u32));
                    }
                },
                None => {},
            }
            k += 1;
            proof {
                assert forall|i: int| 0 <= i < found@.len() implies vids@.take(k as int).contains(#[trigger] found@[i]) by {
                    if i < found@.len() - 1 || !self.has_vertex(vids@[k - 1]) {
                        let t0 = vids@.take(k - 1);
                        assert(t0.contains(found@[i]));
                        let w = choose|w: int| 0 <= w < t0.len() && #[trigger] t0[w] == found@[i];
                        assert(vids@.take(k as int)[w] == found@[i]);
                    } else {
                        assert(vids@.take(k as int)[k - 1] == found@[i]);
                    }
                }
            }
        }
        proof {
            assert(vids@.take(k as int) =~= vids@);
        }
        found
    }

    /// Copies the existing linedefs among `lids` into the empty clipboard
    /// linedef list under ids 0, 1, .., joining the vertices renumbered by
    /// their position in `found_v` and bounding no sector; returns the ids
    /// that were found.
    #[verifier::rlimit(50)]
    fn copy_linedefs_into(&self, lids: &Vec<u32>, found_v: &Vec<u32>, clip: &mut GameMap) -> (found: Vec<u32>)
        requires
            old(clip).linedefs@.len() == 0,
            lids@.no_duplicates(),
            self.linedefs@.len() < 0x1_0000_0000,
            found_v@.len() < 0x1_0000_0000,
            forall|k: int|
                0 <= k < lids@.len() && self.has_linedef(#[trigger] lids@[k]) ==> found_v@.contains(
                    linedef_of(*self, lids@[k]).start_vertex,
                ) && found_v@.contains(linedef_of(*self, lids@[k]).end_vertex),
        ensures
            found@ == lids@.filter(|id: u32| self.has_linedef(id)),
            found@.no_duplicates(),
            final(clip).linedefs@ == Seq::new(
                found@.len(),
                |k: int|
                    Linedef {
                        id: k as u32,
                        start_vertex: first_id_index(found_v@, linedef_of(*self, found@[k]).start_vertex) as u32,
                        end_vertex: first_id_index(found_v@, linedef_of(*self, found@[k]).end_vertex) as u32,
                        front_sector: None,
                        back_sector: None,
                        ..linedef_of(*self, found@[k])
                    },
            ),
            final(clip).vertices == old(clip).vertices,
            final(clip).sectors == old(clip).sectors,
            super::same_settings(*old(clip), *final(clip)),
            final(clip).possible_polygon == old(clip).possible_polygon,
    {
        let ghost pred = |id: u32| self.has_linedef(id);
        let ghost fv = found_v@;
        let mut found: Vec<u32> = Vec::new();
        let mut k: usize = 0;
        while k < lids.len()
            invariant
                k <= lids@.len(),
                lids@.no_duplicates(),
                fv == found_v@,
                found_v@.len() < 0x1_0000_0000,
                self.linedefs@.len() < 0x1_0000_0000,
                forall|q: int|
                    0 <= q < lids@.len() && self.has_linedef(#[trigger] lids@[q]) ==> found_v@.contains(
                        linedef_of(*self, lids@[q]).start_vertex,
                    ) && found_v@.contains(linedef_of(*self, lids@[q]).end_vertex),
                pred == (|id: u32| self.has_linedef(id)),
                found@ == lids@.take(k as int).filter(pred),
                found@.no_duplicates(),
                forall|i: int| 0 <= i < found@.len() ==> lids@.take(k as int).contains(#[trigger] found@[i]),
                forall|i: int| 0 <= i < found@.len() ==> self.has_linedef(#[trigger] found@[i]),
                clip.linedefs@ == Seq::new(
                    found@.len(),
                    |q: int|
                        Linedef {
                            id: q as u32,
                            start_vertex: first_id_index(fv, linedef_of(*self, found@[q]).start_vertex) as u32,
                            end_vertex: first_id_index(fv, linedef_of(*self, found@[q]).end_vertex) as u32,
                            front_sector: None,
                            back_sector: None,
                            ..linedef_of(*self, found@[q])
                        },
                ),
                linedef_ids(clip.linedefs@) == Seq::new(found@.len(), |q: int| q as u32),
                clip.vertices == old(clip).vertices,
                clip.sectors == old(clip).sectors,
                super::same_settings(*old(clip), *clip),
                clip.possible_polygon == old(clip).possible_polygon,
            decreases lids@.len() - k,
        {
            proof {
                assert(lids@.take(k + 1) =~= lids@.take(k as int).push(lids@[k as int]));
                lids@.take(k as int).lemma_filter_push(lids@[k as int], pred);
                lemma_distinct_len_bound(found@, linedef_ids(self.linedefs@));
                assert(linedef_ids(self.linedefs@).len() == self.linedefs@.len());
            }
            let id = lids[k];
            match self.linedef_index(id) {
                Some(i) => {
                    let n: u32 = found.len() as u32;
                    let new_id = match clip.find_free_linedef_id() {
                        Some(x) => x,
                        None => {
                            assert(!clip.has_linedef(n));
                            return found;
                        },
                    };
                    proof {
                        if new_id < n {
                            assert(linedef_ids(clip.linedefs@)[new_id as int] == new_id);
                        }
                        if new_id > n {
                            assert(clip.has_linedef(n));
                            let q = choose|q: int| 0 <= q < linedef_ids(clip.linedefs@).len() && linedef_ids(clip.linedefs@)[q] == n;
                        }
                        assert(self.has_linedef(lids@[k as int]));
                        assert(self.linedefs@[i as int] == linedef_of(*self, id));
                    }
                    let l = &self.linedefs[i];
                    let start = match position_of(found_v, l.start_vertex) {
                        Some(p) => p as u32,
                        None => return found,
                    };
                    let end = match position_of(found_v, l.end_vertex) {
                        Some(p) => p as u32,
                        None => return found,
                    };
                    let nl = Linedef {
                        id: new_id,
                        creator_id: l.creator_id,
                        name: l.name.clone(),
                        start_vertex: start,
                        end_vertex: end,
                        front_sector: None,
                        back_sector: None,
                    };
                    let ghost before = found@;
                    clip.linedefs.push(nl);
                    found.push(id);
                    proof {
                        assert forall|a: int, b: int| 0 <= a < b < found@.len() implies found@[a] != found@[b] by {
                            if b == before.len() {
                                let t0 = lids@.take(k as int);
                                assert(t0.contains(found@[a]));
                                let w = choose|w: int| 0 <= w < t0.len() && #[trigger] t0[w] == found@[a];
                                assert(lids@[w] == found@[a]);
                            }
                        }
                        assert(clip.linedefs@ =~= Seq::new(
                            found@.len(),
                            |q: int|
                                Linedef {
                                    id: q as u32,
                                    start_vertex: first_id_index(fv, linedef_of(*self, found@[q]).start_vertex) as u32,
                                    end_vertex: first_id_index(fv, linedef_of(*self, found@[q]).end_vertex) as u32,
                                    front_sector: None,
                                    back_sector: None,
                                    ..linedef_of(*self, found@[q])
                                },
                        ));
                        assert(linedef_ids(clip.linedefs@) =~= Seq::new(found@.len(), |q: int| q as u32));
                    }
                },
                None => {},
            }
            k += 1;
            proof {
                assert forall|i: int| 0 <= i < found@.len() implies lids@.take(k as int).contains(#[trigger] found@[i]) by {
                    if i < found@.len() - 1 || !self.has_linedef(lids@[k - 1]) {
                        let t0 = lids@.take(k - 1);
                        assert(t0.contains(found@[i]));
                        let w = choose|w: int| 0 <= w < t0.len() && #[trigger] t0[w] == found@[i];
                        assert(lids@.take(k as int)[w] == found@[i]);
                    } else {
                        assert(lids@.take(k as int)[k - 1] == found@[i]);
                    }
                }
            }
        }
        proof {
            assert(lids@.take(k as int) =~= lids@);
        }
        found
    }


    /// Copies the existing sectors among `sids` into the empty clipboard sector
    /// list under ids 0, 1, .., made of the linedefs renumbered by their
    /// position in `found_l`.
    #[verifier::rlimit(50)]
    fn copy_sectors_into(&self, sids: &Vec<u32>, found_l: &Vec<u32>, clip: &mut GameMap)
        requires
            old(clip).sectors@.len() == 0,
            sids@.no_duplicates(),
            self.sectors@.len() < 0x1_0000_0000,
            found_l@.len() < 0x1_0000_0000,
            forall|k: int, j: int|
                0 <= k < sids@.len() && self.has_sector(sids@[k]) && 0 <= j < sector_of(
                    *self,
                    sids@[k],
                ).linedefs@.len() ==> found_l@.contains(#[trigger] sector_of(*self, sids@[k]).linedefs@[j]),
        ensures
            ({
                let found = sids@.filter(|id: u32| self.has_sector(id));
                final(clip).sectors@.map_values(|s: Sector| sector_view(s)) == Seq::new(
                    found.len(),
                    |k: int|
                        (
                            k as u32,
                            sector_of(*self, found[k]).name@,
                            sector_of(*self, found[k]).linedefs@.map_values(
                                |id: u32| first_id_index(found_l@, id) as u32,
                            ),
                            sector_of(*self, found[k]).neighbours@,
                            sector_of(*self, found[k]).layer,
                        ),
                )
            }),
            final(clip).vertices == old(clip).vertices,
            final(clip).linedefs == old(clip).linedefs,
            super::same_settings(*old(clip), *final(clip)),
            final(clip).possible_polygon == old(clip).possible_polygon,
    {
        let ghost pred = |id: u32| self.has_sector(id);
        let ghost fl = found_l@;
        let ghost view = |s: Sector| sector_view(s);
        let ghost mut found: Seq<u32> = Seq::empty();
        let mut k: usize = 0;
        while k < sids.len()
            invariant
                k <= sids@.len(),
                sids@.no_duplicates(),
                fl == found_l@,
                view == (|s: Sector| sector_view(s)),
                found_l@.len() < 0x1_0000_0000,
                self.sectors@.len() < 0x1_0000_0000,
                forall|q: int, j: int|
                    0 <= q < sids@.len() && self.has_sector(sids@[q]) && 0 <= j < sector_of(
                        *self,
                        sids@[q],
                    ).linedefs@.len() ==> found_l@.contains(#[trigger] sector_of(*self, sids@[q]).linedefs@[j]),
                pred == (|id: u32| self.has_sector(id)),
                found == sids@.take(k as int).filter(pred),
                found.no_duplicates(),
                forall|i: int| 0 <= i < found.len() ==> sids@.take(k as int).contains(#[trigger] found[i]),
                forall|i: int| 0 <= i < found.len() ==> self.has_sector(#[trigger] found[i]),
                clip.sectors@.map_values(view) == Seq::new(
                    found.len(),
                    |q: int|
                        (
                            q as u32,
                            sector_of(*self, found[q]).name@,
                            sector_of(*self, found[q]).linedefs@.map_values(
                                |id: u32| first_id_index(fl, id) as u32,
                            ),
                            sector_of(*self, found[q]).neighbours@,
                            sector_of(*self, found[q]).layer,
                        ),
                ),
                sector_ids(clip.sectors@) == Seq::new(found.len(), |q: int| q as u32),
                clip.vertices == old(clip).vertices,
                clip.linedefs == old(clip).linedefs,
                super::same_settings(*old(clip), *clip),
                clip.possible_polygon == old(clip).possible_polygon,
            decreases sids@.len() - k,
        {
            proof {
                assert(sids@.take(k + 1) =~= sids@.take(k as int).push(sids@[k as int]));
                sids@.take(k as int).lemma_filter_push(sids@[k as int], pred);
                lemma_distinct_len_bound(found, sector_ids(self.sectors@));
                assert(sector_ids(self.sectors@).len() == self.sectors@.len());
            }
            let id = sids[k];
            match self.sector_index(id) {
                Some(i) => {
                    let ghost n: u32 = found.len() as u32;
                    let new_id = match clip.find_free_sector_id() {
                        Some(x) => x,
                        None => {
                            assert(!clip.has_sector(n));
                            return;
                        },
                    };
                    proof {
                        if new_id < n {
                            assert(sector_ids(clip.sectors@)[new_id as int] == new_id);
                        }
                        if new_id > n {
                            assert(clip.has_sector(n));
                            let q = choose|q: int| 0 <= q < sector_ids(clip.sectors@).len() && sector_ids(clip.sectors@)[q] == n;
                        }
                        assert(self.has_sector(sids@[k as int]));
                        assert(self.sectors@[i as int] == sector_of(*self, id));
                        assert forall|j: int| 0 <= j < self.sectors@[i as int].linedefs@.len() implies found_l@.contains(
                            #[trigger] self.sectors@[i as int].linedefs@[j],
                        ) by {
                            assert(found_l@.contains(sector_of(*self, sids@[k as int]).linedefs@[j]));
                        }
                    }
                    let s = &self.sectors[i];
                    let lds = match renumber_linedefs(&s.linedefs, found_l) {
                        Some(v) => v,
                        None => return,
                    };
                    let ns = Sector {
                        id: new_id,
                        name: s.name.clone(),
                        linedefs: lds,
                        neighbours: s.neighbours.clone(),
                        layer: s.layer,
                    };
                    let ghost before = found;
                    let ghost old_sectors = clip.sectors@;
                    clip.sectors.push(ns);
                    proof {
                        found = found.push(id);
                        assert forall|a: int, b: int| 0 <= a < b < found.len() implies found[a] != found[b] by {
                            if b == before.len() {
                                let t0 = sids@.take(k as int);
                                assert(t0.contains(found[a]));
                                let w = choose|w: int| 0 <= w < t0.len() && #[trigger] t0[w] == found[a];
                                assert(sids@[w] == found[a]);
                            }
                        }
                        assert(clip.sectors@.map_values(view) =~= old_sectors.map_values(view).push(sector_view(ns)));
                        assert(clip.sectors@.map_values(view) =~= Seq::new(
                            found.len(),
                            |q: int|
                                (
                                    q as u32,
                                    sector_of(*self, found[q]).name@,
                                    sector_of(*self, found[q]).linedefs@.map_values(
                                        |id: u32| first_id_index(fl, id) as u32,
                                    ),
                                    sector_of(*self, found[q]).neighbours@,
                                    sector_of(*self, found[q]).layer,
                                ),
                        ));
                        assert(sector_ids(clip.sectors@) =~= sector_ids(old_sectors).push(new_id));
                        assert(sector_ids(clip.sectors@) =~= Seq::new(found.len(), |q: int| q as u32));
                    }
                },
                None => {},
            }
            k += 1;
            proof {
                assert forall|i: int| 0 <= i < found.len() implies sids@.take(k as int).contains(#[trigger] found[i]) by {
                    if i < found.len() - 1 || !self.has_sector(sids@[k - 1]) {
                        let t0 = sids@.take(k - 1);
                        assert(t0.contains(found[i]));
                        let w = choose|w: int| 0 <= w < t0.len() && #[trigger] t0[w] == found[i];
                        assert(sids@.take(k as int)[w] == found[i]);
                    } else {
                        assert(sids@.take(k as int)[k - 1] == found[i]);
                    }
                }
            }
        }
        proof {
            assert(sids@.take(k as int) =~= sids@);
        }
    }

    /// Copies the selection into a new clipboard map: the selected sectors,
    /// the selected linedefs and those of the selected sectors, and the ends of
    /// those linedefs and the selected vertices, renumbered from 0 in that
    /// order, the linedefs bounding only the copied sectors. Nothing is copied
    /// when no vertex is found. When cutting, the copied ids are deleted from
    /// this map and the selection is cleared. The clipboard's positions are
    /// those of the map; moving them to the origin is left to the caller.
    pub fn copy_selected(&mut self, cut: bool) -> (clip: GameMap)
        requires
            old(self).vertices@.len() < 0x1_0000_0000,
            old(self).linedefs@.len() < 0x1_0000_0000,
            old(self).sectors@.len() < 0x1_0000_0000,
            forall|k: int|
                0 <= k < copied_linedef_ids(*old(self)).len() && old(self).has_linedef(
                    #[trigger] copied_linedef_ids(*old(self))[k],
                ) ==> old(self).has_vertex(
                    linedef_of(*old(self), copied_linedef_ids(*old(self))[k]).start_vertex,
                ) && old(self).has_vertex(
                    linedef_of(*old(self), copied_linedef_ids(*old(self))[k]).end_vertex,
                ),
            forall|k: int, j: int|
                0 <= k < copied_sector_ids(*old(self)).len() && old(self).has_sector(
                    copied_sector_ids(*old(self))[k],
                ) && 0 <= j < sector_of(*old(self), copied_sector_ids(*old(self))[k]).linedefs@.len()
                    ==> old(self).has_linedef(
                    #[trigger] sector_of(*old(self), copied_sector_ids(*old(self))[k]).linedefs@[j],
                ),
        ensures
            found_vertex_ids(*old(self)).len() == 0 ==> {
                &&& clip.vertices@.len() == 0
                &&& clip.linedefs@.len() == 0
                &&& clip.sectors@.len() == 0
                &&& *final(self) == *old(self)
            },
            found_vertex_ids(*old(self)).len() > 0 ==> {
                &&& clip.vertices@ == clip_vertices(*old(self))
                &&& clip.linedefs@ == clip_linedefs(*old(self))
                &&& clip.sectors@.map_values(|s: Sector| sector_view(s)) == clip_sectors(*old(self))
                &&& if cut {
                    &&& geometry_deleted(
                        *old(self),
                        *final(self),
                        copied_vertex_ids(*old(self)),
                        copied_linedef_ids(*old(self)),
                        copied_sector_ids(*old(self)),
                    )
                    &&& final(self).selected_vertices@.len() == 0
                    &&& final(self).selected_linedefs@.len() == 0
                    &&& final(self).selected_sectors@.len() == 0
                    &&& final(self).selected_light is None
                    &&& final(self).selected_entity_item is None
                    &&& final(self).id == old(self).id
                    &&& final(self).name == old(self).name
                    &&& final(self).camera == old(self).camera
                    &&& final(self).changed == old(self).changed
                } else {
                    *final(self) == *old(self)
                }
            },
            clip.name@ == "New Map"@,
            clip.possible_polygon@.len() == 0,
            clip.camera == super::MapCamera::TwoD,
            clip.selected_vertices@.len() == 0,
            clip.selected_linedefs@.len() == 0,
            clip.selected_sectors@.len() == 0,
            clip.selected_light is None,
            clip.selected_entity_item is None,
            clip.changed == 0,
    {
        let mut clip = GameMap::new();
        let (vids, lids, sids) = self.collect_copy_ids();
        proof {
            super::lemma_add_unique(Seq::empty(), self.selected_sectors@);
            super::lemma_add_unique(Seq::empty(), self.selected_linedefs@);
            lemma_gather_sector_linedefs(*self, add_unique(Seq::empty(), self.selected_linedefs@), sids@);
            lemma_gather_linedef_vertices(*self, Seq::empty(), lids@);
            super::lemma_add_unique(gather_linedef_vertices(*self, Seq::empty(), lids@), self.selected_vertices@);
        }
        let found_v = self.copy_vertices_into(&vids, &mut clip);
        if found_v.len() == 0 {
            return clip;
        }
        proof {
            lemma_distinct_len_bound(found_v@, vertex_ids(self.vertices@));
            assert forall|k: int|
                0 <= k < lids@.len() && self.has_linedef(#[trigger] lids@[k]) implies found_v@.contains(
                    linedef_of(*self, lids@[k]).start_vertex,
                ) && found_v@.contains(linedef_of(*self, lids@[k]).end_vertex) by {
                let l = linedef_of(*self, lids@[k]);
                let g = gather_linedef_vertices(*self, Seq::empty(), lids@);
                assert(g.contains(l.start_vertex) && g.contains(l.end_vertex));
                assert(vids@.contains(l.start_vertex) && vids@.contains(l.end_vertex));
                vids@.lemma_filter_contains_rev(|id: u32| self.has_vertex(id), l.start_vertex);
                vids@.lemma_filter_contains_rev(|id: u32| self.has_vertex(id), l.end_vertex);
            }
        }
        let found_l = self.copy_linedefs_into(&lids, &found_v, &mut clip);
        proof {
            lemma_distinct_len_bound(found_l@, linedef_ids(self.linedefs@));
            assert forall|k: int, j: int|
                0 <= k < sids@.len() && self.has_sector(sids@[k]) && 0 <= j < sector_of(
                    *self,
                    sids@[k],
                ).linedefs@.len() implies found_l@.contains(#[trigger] sector_of(*self, sids@[k]).linedefs@[j]) by {
                let x = sector_of(*self, sids@[k]).linedefs@[j];
                assert(lids@.contains(x));
                assert(self.has_linedef(x));
                lids@.lemma_filter_contains_rev(|id: u32| self.has_linedef(id), x);
            }
        }
        self.copy_sectors_into(&sids, &found_l, &mut clip);
        if cut {
            self.delete_elements(vids.as_slice(), lids.as_slice(), sids.as_slice());
            self.clear_selection();
        }
        proof {
            assert(clip.vertices@ =~= clip_vertices(*old(self)));
            assert(clip.linedefs@ =~= clip_linedefs(*old(self)));
        }
        clip
    }

    /// Whether copying the selection finds everything it refers to: the ends
    /// of each copied linedef and the linedefs of each copied sector exist.
    pub fn copy_selection_consistent(&self) -> (r: bool)
        ensures
            r == ((forall|k: int|
                0 <= k < copied_linedef_ids(*self).len() && self.has_linedef(
                    #[trigger] copied_linedef_ids(*self)[k],
                ) ==> self.has_vertex(linedef_of(*self, copied_linedef_ids(*self)[k]).start_vertex)
                    && self.has_vertex(linedef_of(*self, copied_linedef_ids(*self)[k]).end_vertex))
                && (forall|k: int, j: int|
                0 <= k < copied_sector_ids(*self).len() && self.has_sector(copied_sector_ids(*self)[k]) && 0
                    <= j < sector_of(*self, copied_sector_ids(*self)[k]).linedefs@.len() ==> self.has_linedef(
                    #[trigger] sector_of(*self, copied_sector_ids(*self)[k]).linedefs@[j],
                ))),
    {
        let (_vids, lids, sids) = self.collect_copy_ids();
        let mut k: usize = 0;
        while k < lids.len()
            invariant
                k <= lids@.len(),
                lids@ == copied_linedef_ids(*self),
                forall|q: int|
                    0 <= q < k && self.has_linedef(#[trigger] lids@[q]) ==> self.has_vertex(
                        linedef_of(*self, lids@[q]).start_vertex,
                    ) && self.has_vertex(linedef_of(*self, lids@[q]).end_vertex),
            decreases lids@.len() - k,
        {
            match self.linedef_index(lids[k]) {
                Some(i) => {
                    if self.vertex_index(self.linedefs[i].start_vertex).is_none()
                        || self.vertex_index(self.linedefs[i].end_vertex).is_none() {
                        return false;
                    }
                },
                None => {},
            }
            k += 1;
        }
        let mut m: usize = 0;
        while m < sids.len()
            invariant
                m <= sids@.len(),
                sids@ == copied_sector_ids(*self),
                lids@ == copied_linedef_ids(*self),
                forall|q: int|
                    0 <= q < lids@.len() && self.has_linedef(#[trigger] lids@[q]) ==> self.has_vertex(
                        linedef_of(*self, lids@[q]).start_vertex,
                    ) && self.has_vertex(linedef_of(*self, lids@[q]).end_vertex),
                forall|q: int, j: int|
                    0 <= q < m && self.has_sector(sids@[q]) && 0 <= j < sector_of(*self, sids@[q]).linedefs@.len()
                        ==> self.has_linedef(#[trigger] sector_of(*self, sids@[q]).linedefs@[j]),
            decreases sids@.len() - m,
        {
            match self.sector_index(sids[m]) {
                Some(i) => {
                    assert(sector_ids(self.sectors@)[i as int] == sids@[m as int]);
                    let lds = &self.sectors[i].linedefs;
                    let mut j: usize = 0;
                    while j < lds.len()
                        invariant
                            j <= lds@.len(),
                            m < sids@.len(),
                            sids@ == copied_sector_ids(*self),
                            self.has_sector(sids@[m as int]),
                            lds@ == sector_of(*self, sids@[m as int]).linedefs@,
                            forall|t: int| 0 <= t < j ==> self.has_linedef(#[trigger] lds@[t]),
                        decreases lds@.len() - j,
                    {
                        if self.linedef_index(lds[j]).is_none() {
                            proof {
                                assert(self.has_sector(sids@[m as int]));
                                assert(!self.has_linedef(sector_of(*self, copied_sector_ids(*self)[m as int]).linedefs@[j as int]));
                            }
                            return false;
                        }
                        j += 1;
                    }
                },
                None => {},
            }
            m += 1;
        }
        true
    }
}

} // verus!
