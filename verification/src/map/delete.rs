use vstd::prelude::*;

use super::linedef::Linedef;
use super::sector::Sector;
use super::vertex::Vertex;
use super::{first_id_index, is_first_id, lemma_first_id_index_contains, linedef_ids, vertex_ids, GameMap};
use crate::util::contains_u32;

verus! {

broadcast use vstd::seq_lib::group_seq_properties;

/// Linedef `l` starts or ends at vertex `x`.
pub open spec fn touches(l: Linedef, x: u32) -> bool {
    l.start_vertex == x || l.end_vertex == x
}

/// Some sector other than sector `k` (by id) is bounded by `lid`.
pub open spec fn used_by_other_sector(ss: Seq<Sector>, k: int, lid: u32) -> bool {
    exists|m: int| 0 <= m < ss.len() && ss[m].id != ss[k].id && #[trigger] ss[m].linedefs@.contains(lid)
}

/// Sector `k` is being deleted and its `q`-th linedef bounds no sector with another id.
pub open spec fn orphaned_by(ss: Seq<Sector>, sids: Seq<u32>, k: int, q: int) -> bool {
    &&& 0 <= k < ss.len()
    &&& sids.contains(ss[k].id)
    &&& 0 <= q < ss[k].linedefs@.len()
    &&& !used_by_other_sector(ss, k, ss[k].linedefs@[q])
}

/// Linedef id `x` goes when deleting: it was asked for, or it bounds only sectors being deleted.
pub open spec fn deleted_linedef(m: GameMap, lids: Seq<u32>, sids: Seq<u32>, x: u32) -> bool {
    lids.contains(x) || exists|k: int, q: int|
        #[trigger] orphaned_by(m.sectors@, sids, k, q) && m.sectors@[k].linedefs@[q] == x
}

/// Vertex `x` is an end of (the first) linedef `lid`, and every other linedef
/// that touches it goes as well.
pub open spec fn orphaned_vertex(m: GameMap, lids: Seq<u32>, sids: Seq<u32>, lid: u32, x: u32) -> bool {
    let i = first_id_index(linedef_ids(m.linedefs@), lid);
    &&& i >= 0
    &&& touches(m.linedefs@[i], x)
    &&& !exists|j: int|
        0 <= j < m.linedefs@.len() && m.linedefs@[j].id != lid && #[trigger] touches(m.linedefs@[j], x)
            && !deleted_linedef(m, lids, sids, m.linedefs@[j].id)
}

/// Vertex id `x` goes when deleting: it was asked for, or it is an end only of linedefs that go.
pub open spec fn deleted_vertex(m: GameMap, vids: Seq<u32>, lids: Seq<u32>, sids: Seq<u32>, x: u32) -> bool {
    vids.contains(x) || exists|lid: u32|
        deleted_linedef(m, lids, sids, lid) && #[trigger] orphaned_vertex(m, lids, sids, lid, x)
}

/// Linedef `l` with any front or back reference to a sector of `sids` removed.
pub open spec fn clear_sector_refs(l: Linedef, sids: Seq<u32>) -> Linedef {
    Linedef {
        front_sector: if l.front_sector is Some && sids.contains(l.front_sector->0) {
            None
        } else {
            l.front_sector
        },
        back_sector: if l.back_sector is Some && sids.contains(l.back_sector->0) {
            None
        } else {
            l.back_sector
        },
        ..l
    }
}

/// The plain contents of a sector.
pub open spec fn sector_view(s: Sector) -> (u32, Seq<char>, Seq<u32>, Seq<u32>, Option<u8>) {
    (s.id, s.name@, s.linedefs@, s.neighbours@, s.layer)
}

/// The sectors not in `sids`, each keeping only the linedefs whose ids are in
/// `valid`, and without those left with no linedef.
pub open spec fn cleaned_sectors(ss: Seq<Sector>, sids: Seq<u32>, valid: Seq<u32>) -> Seq<(u32, Seq<char>, Seq<u32>, Seq<u32>, Option<u8>)>
    decreases ss.len(),
{
    if ss.len() == 0 {
        Seq::empty()
    } else {
        let prev = cleaned_sectors(ss.drop_last(), sids, valid);
        let s = ss.last();
        let kept = s.linedefs@.filter(|x: u32| valid.contains(x));
        if sids.contains(s.id) || kept.len() == 0 {
            prev
        } else {
            prev.push((s.id, s.name@, kept, s.neighbours@, s.layer))
        }
    }
}

/// Linedef `l` stays when deleting: it is not deleted itself and neither of
/// its ends is a deleted vertex.
pub open spec fn linedef_stays(a: GameMap, vids: Seq<u32>, lids: Seq<u32>, sids: Seq<u32>, l: Linedef) -> bool {
    &&& !deleted_linedef(a, lids, sids, l.id)
    &&& !deleted_vertex(a, vids, lids, sids, l.start_vertex)
    &&& !deleted_vertex(a, vids, lids, sids, l.end_vertex)
}

/// The geometry of map `b` is that of map `a` after deleting the given
/// vertices, linedefs and sectors together with their associated geometry:
/// linedefs that bound only deleted sectors go with them, vertices that are
/// ends only of deleted linedefs go too, and every linedef that starts or ends
/// at a deleted vertex goes; references of the remaining linedefs to deleted
/// sectors are cleared, sectors drop references to deleted linedefs, and
/// sectors left without linedefs are removed. The drawn polygon is kept.
pub open spec fn geometry_deleted(a: GameMap, b: GameMap, vids: Seq<u32>, lids: Seq<u32>, sids: Seq<u32>) -> bool {
    &&& b.linedefs@ == a.linedefs@.map_values(|l: Linedef| clear_sector_refs(l, sids)).filter(
        |l: Linedef| linedef_stays(a, vids, lids, sids, l),
    )
    &&& b.sectors@.map_values(|s: Sector| sector_view(s)) == cleaned_sectors(
        a.sectors@,
        sids,
        super::linedef_ids(b.linedefs@),
    )
    &&& b.vertices@ == a.vertices@.filter(|v: Vertex| !deleted_vertex(a, vids, lids, sids, v.id))
    &&& b.possible_polygon == a.possible_polygon
}


proof fn lemma_cleaned_sectors_valid(ss: Seq<Sector>, sids: Seq<u32>, valid: Seq<u32>)
    ensures
        forall|i: int, j: int|
            0 <= i < cleaned_sectors(ss, sids, valid).len() && 0 <= j < cleaned_sectors(ss, sids, valid)[i].2.len()
                ==> valid.contains(#[trigger] cleaned_sectors(ss, sids, valid)[i].2[j]),
        forall|i: int|
            0 <= i < cleaned_sectors(ss, sids, valid).len() ==> (#[trigger] cleaned_sectors(ss, sids, valid)[i]).2.len() > 0,
        forall|i: int|
            0 <= i < cleaned_sectors(ss, sids, valid).len() ==> !sids.contains(
                (#[trigger] cleaned_sectors(ss, sids, valid)[i]).0,
            ),
    decreases ss.len(),
{
    if ss.len() > 0 {
        lemma_cleaned_sectors_valid(ss.drop_last(), sids, valid);
        let s = ss.last();
        let pred = |x: u32| valid.contains(x);
        let kept = s.linedefs@.filter(pred);
        s.linedefs@.filter_lemma(pred);
        let prev = cleaned_sectors(ss.drop_last(), sids, valid);
        let cur = cleaned_sectors(ss, sids, valid);
        assert forall|i: int| 0 <= i < cur.len() implies (#[trigger] cur[i]).2.len() > 0 && !sids.contains(cur[i].0)
            && forall|j: int| 0 <= j < cur[i].2.len() ==> valid.contains(#[trigger] cur[i].2[j]) by {
            if i < prev.len() {
                assert(cur[i] == prev[i]);
                assert(forall|j: int| 0 <= j < prev[i].2.len() ==> valid.contains(#[trigger] prev[i].2[j]));
            } else {
                assert(cur[i].2 == kept);
                assert forall|j: int| 0 <= j < cur[i].2.len() implies valid.contains(#[trigger] cur[i].2[j]) by {
                    assert(pred(kept[j]));
                }
            }
        }
    }
}

/// After a deletion every remaining sector is made of at least one linedef,
/// every linedef it names exists, and no deleted sector remains; no remaining
/// linedef starts or ends at a vertex that is gone.
pub proof fn lemma_deletion_leaves_whole_sectors(a: GameMap, b: GameMap, vids: Seq<u32>, lids: Seq<u32>, sids: Seq<u32>)
    requires
        geometry_deleted(a, b, vids, lids, sids),
    ensures
        forall|k: int, x: u32|
            0 <= k < b.linedefs@.len() && a.has_vertex(x) && !b.has_vertex(x) ==> !#[trigger] touches(
                b.linedefs@[k],
                x,
            ),
        forall|k: int| 0 <= k < b.sectors@.len() ==> (#[trigger] b.sectors@[k]).linedefs@.len() > 0,
        forall|k: int, j: int|
            0 <= k < b.sectors@.len() && 0 <= j < b.sectors@[k].linedefs@.len() ==> b.has_linedef(
                #[trigger] b.sectors@[k].linedefs@[j],
            ),
        forall|k: int| 0 <= k < b.sectors@.len() ==> !sids.contains((#[trigger] b.sectors@[k]).id),
{
    let valid = super::linedef_ids(b.linedefs@);
    lemma_cleaned_sectors_valid(a.sectors@, sids, valid);
    let stays = |l: Linedef| linedef_stays(a, vids, lids, sids, l);
    let cleared = a.linedefs@.map_values(|l: Linedef| clear_sector_refs(l, sids));
    cleared.filter_lemma(stays);
    let vstay = |v: Vertex| !deleted_vertex(a, vids, lids, sids, v.id);
    a.vertices@.filter_lemma(vstay);
    assert forall|k: int, x: u32|
        0 <= k < b.linedefs@.len() && a.has_vertex(x) && !b.has_vertex(x) implies !#[trigger] touches(
            b.linedefs@[k],
            x,
        ) by {
        assert(stays(b.linedefs@[k]));
        if !deleted_vertex(a, vids, lids, sids, x) {
            let i = choose|i: int| 0 <= i < vertex_ids(a.vertices@).len() && vertex_ids(a.vertices@)[i] == x;
            assert(a.vertices@[i].id == x);
            assert(vstay(a.vertices@[i]));
            assert(b.vertices@.contains(a.vertices@[i]));
            let j = choose|j: int| 0 <= j < b.vertices@.len() && b.vertices@[j] == a.vertices@[i];
            assert(vertex_ids(b.vertices@)[j] == x);
        }
    }
    let views = b.sectors@.map_values(|s: Sector| sector_view(s));
    assert forall|k: int| 0 <= k < b.sectors@.len() implies (#[trigger] b.sectors@[k]).linedefs@.len() > 0 && !sids.contains(b.sectors@[k].id) by {
        assert(views[k] == sector_view(b.sectors@[k]));
    }
    assert forall|k: int, j: int|
        0 <= k < b.sectors@.len() && 0 <= j < b.sectors@[k].linedefs@.len() implies b.has_linedef(
            #[trigger] b.sectors@[k].linedefs@[j],
        ) by {
        assert(views[k] == sector_view(b.sectors@[k]));
        assert(views[k].2[j] == b.sectors@[k].linedefs@[j]);
    }
}

/// After a deletion no remaining linedef names a deleted sector on either
/// side, and every side that named a sector that stays still names it.
pub proof fn lemma_deletion_clears_sector_refs(a: GameMap, b: GameMap, vids: Seq<u32>, lids: Seq<u32>, sids: Seq<u32>)
    requires
        geometry_deleted(a, b, vids, lids, sids),
    ensures
        forall|k: int|
            0 <= k < b.linedefs@.len() ==> {
                &&& (#[trigger] b.linedefs@[k]).front_sector matches Some(f) ==> !sids.contains(f)
                &&& b.linedefs@[k].back_sector matches Some(g) ==> !sids.contains(g)
                &&& exists|i: int|
                    0 <= i < a.linedefs@.len() && a.linedefs@[i].id == b.linedefs@[k].id
                        && (a.linedefs@[i].front_sector is Some && !sids.contains(a.linedefs@[i].front_sector->0)
                        ==> b.linedefs@[k].front_sector == a.linedefs@[i].front_sector)
                        && (a.linedefs@[i].back_sector is Some && !sids.contains(a.linedefs@[i].back_sector->0)
                        ==> b.linedefs@[k].back_sector == a.linedefs@[i].back_sector)
            },
{
    let cleared = a.linedefs@.map_values(|l: Linedef| clear_sector_refs(l, sids));
    let stays = |l: Linedef| linedef_stays(a, vids, lids, sids, l);
    cleared.filter_lemma(stays);
    assert forall|k: int| 0 <= k < b.linedefs@.len() implies {
        &&& (#[trigger] b.linedefs@[k]).front_sector matches Some(f) ==> !sids.contains(f)
        &&& b.linedefs@[k].back_sector matches Some(g) ==> !sids.contains(g)
        &&& exists|i: int|
            0 <= i < a.linedefs@.len() && a.linedefs@[i].id == b.linedefs@[k].id
                && (a.linedefs@[i].front_sector is Some && !sids.contains(a.linedefs@[i].front_sector->0)
                ==> b.linedefs@[k].front_sector == a.linedefs@[i].front_sector)
                && (a.linedefs@[i].back_sector is Some && !sids.contains(a.linedefs@[i].back_sector->0)
                ==> b.linedefs@[k].back_sector == a.linedefs@[i].back_sector)
    } by {
        assert(cleared.filter(stays).contains(b.linedefs@[k])) by {
            assert(b.linedefs@ == cleared.filter(stays));
            assert(b.linedefs@[k] == cleared.filter(stays)[k]);
        }
        cleared.lemma_filter_contains_rev(stays, b.linedefs@[k]);
        let i = choose|i: int| 0 <= i < cleared.len() && cleared[i] == b.linedefs@[k];
        assert(cleared[i] == clear_sector_refs(a.linedefs@[i], sids));
    }
}

/// Copies a linedef.
fn copy_linedef(l: &Linedef) -> (r: Linedef)
    ensures
        r == *l,
{
    Linedef {
        id: l.id,
        creator_id: l.creator_id,
        name: l.name.clone(),
        start_vertex: l.start_vertex,
        end_vertex: l.end_vertex,
        front_sector: l.front_sector,
        back_sector: l.back_sector,
    }
}

/// Copies a vertex.
fn copy_vertex(v: &Vertex) -> (r: Vertex)
    ensures
        r == *v,
{
    Vertex { id: v.id, name: v.name.clone(), x_bits: v.x_bits, y_bits: v.y_bits, z_bits: v.z_bits }
}

/// The elements of `v` that occur in `keep`, order kept.
fn retain_in(v: &Vec<u32>, keep: &Vec<u32>) -> (r: Vec<u32>)
    ensures
        r@ == v@.filter(|x: u32| keep@.contains(x)),
{
    let mut out: Vec<u32> = Vec::new();
    let ghost pred = |x: u32| keep@.contains(x);
    let mut i: usize = 0;
    while i < v.len()
        invariant
            i <= v.len(),
            out@ == v@.take(i as int).filter(pred),
            pred == (|x: u32| keep@.contains(x)),
        decreases v.len() - i,
    {
        assert(v@.take(i + 1) == v@.take(i as int).push(v@[i as int]));
        proof {
            v@.take(i as int).lemma_filter_push(v@[i as int], pred);
        }
        if contains_u32(keep, v[i]) {
            out.push(v[i]);
        }
        i += 1;
    }
    assert(v@.take(v@.len() as int) == v@);
    out
}

impl GameMap {
    /// Whether a sector with another id than sector `k` is bounded by `lid`.
    fn used_elsewhere(&self, k: usize, lid: u32) -> (r: bool)
        requires
            k < self.sectors@.len(),
        ensures
            r == used_by_other_sector(self.sectors@, k as int, lid),
    {
        let mut m: usize = 0;
        while m < self.sectors.len()
            invariant
                k < self.sectors@.len(),
                m <= self.sectors.len(),
                forall|p: int|
                    0 <= p < m ==> !(self.sectors@[p].id != self.sectors@[k as int].id
                        && #[trigger] self.sectors@[p].linedefs@.contains(lid)),
            decreases self.sectors.len() - m,
        {
            if self.sectors[m].id != self.sectors[k].id && contains_u32(&self.sectors[m].linedefs, lid) {
                return true;
            }
            m += 1;
        }
        false
    }

    /// The ids of all linedefs that go when deleting.
    fn collect_deleted_linedefs(&self, linedef_ids: &Vec<u32>, sector_ids: &Vec<u32>) -> (r: Vec<u32>)
        ensures
            forall|x: u32| r@.contains(x) <==> deleted_linedef(*self, linedef_ids@, sector_ids@, x),
    {
        let ghost ss = self.sectors@;
        let mut all = linedef_ids.clone();
        assert(all@ == linedef_ids@);
        let mut k: usize = 0;
        while k < self.sectors.len()
            invariant
                k <= self.sectors.len(),
                ss == self.sectors@,
                forall|x: u32|
                    all@.contains(x) <==> (linedef_ids@.contains(x) || exists|k2: int, q2: int|
                        k2 < k && #[trigger] orphaned_by(ss, sector_ids@, k2, q2) && ss[k2].linedefs@[q2]
                            == x),
            decreases self.sectors.len() - k,
        {
            if contains_u32(sector_ids, self.sectors[k].id) {
                let n = self.sectors[k].linedefs.len();
                let mut q: usize = 0;
                while q < n
                    invariant
                        k < self.sectors.len(),
                        q <= n,
                        n == self.sectors@[k as int].linedefs@.len(),
                        ss == self.sectors@,
                        sector_ids@.contains(ss[k as int].id),
                        forall|x: u32|
                            all@.contains(x) <==> (linedef_ids@.contains(x) || exists|k2: int, q2: int|
                                (k2 < k || (k2 == k && q2 < q)) && #[trigger] orphaned_by(
                                    ss,
                                    sector_ids@,
                                    k2,
                                    q2,
                                ) && ss[k2].linedefs@[q2] == x),
                    decreases n - q,
                {
                    let lid = self.sectors[k].linedefs[q];
                    let used = self.used_elsewhere(k, lid);
                    let ghost before = all@;
                    if !used && !contains_u32(&all, lid) {
                        all.push(lid);
                    }
                    assert forall|x: u32|
                        all@.contains(x) <==> (linedef_ids@.contains(x) || exists|k2: int, q2: int|
                            (k2 < k || (k2 == k && q2 < q + 1)) && #[trigger] orphaned_by(
                                ss,
                                sector_ids@,
                                k2,
                                q2,
                            ) && ss[k2].linedefs@[q2] == x) by {
                        if !used {
                            assert(orphaned_by(ss, sector_ids@, k as int, q as int));
                        }
                        if all@.contains(x) && !before.contains(x) {
                            assert(x == lid);
                            assert(orphaned_by(ss, sector_ids@, k as int, q as int));
                        }
                    }
                    q += 1;
                }
            } else {
                assert forall|x: u32|
                    all@.contains(x) <==> (linedef_ids@.contains(x) || exists|k2: int, q2: int|
                        k2 < k + 1 && #[trigger] orphaned_by(ss, sector_ids@, k2, q2)
                            && ss[k2].linedefs@[q2] == x) by {
                    if exists|k2: int, q2: int|
                        k2 < k + 1 && #[trigger] orphaned_by(ss, sector_ids@, k2, q2)
                            && ss[k2].linedefs@[q2] == x {
                        let (k2, q2) = choose|k2: int, q2: int|
                            k2 < k + 1 && #[trigger] orphaned_by(ss, sector_ids@, k2, q2)
                                && ss[k2].linedefs@[q2] == x;
                        assert(k2 != k);
                    }
                }
            }
            k += 1;
        }
        all
    }
    /// Whether a linedef other than `lid` touches vertex `x` and is not in `deleted`.
    fn vertex_used_elsewhere(&self, lid: u32, x: u32, deleted: &Vec<u32>) -> (r: bool)
        ensures
            r == exists|j: int|
                0 <= j < self.linedefs@.len() && self.linedefs@[j].id != lid && #[trigger] touches(
                    self.linedefs@[j],
                    x,
                ) && !deleted@.contains(self.linedefs@[j].id),
    {
        let mut j: usize = 0;
        while j < self.linedefs.len()
            invariant
                j <= self.linedefs.len(),
                forall|p: int|
                    0 <= p < j ==> !(self.linedefs@[p].id != lid && #[trigger] touches(self.linedefs@[p], x)
                        && !deleted@.contains(self.linedefs@[p].id)),
            decreases self.linedefs.len() - j,
        {
            let l = &self.linedefs[j];
            if l.id != lid && (l.start_vertex == x || l.end_vertex == x) && !contains_u32(deleted, l.id) {
                assert(touches(self.linedefs@[j as int], x));
                return true;
            }
            j += 1;
        }
        false
    }

    /// The ids of all vertices that go when deleting, given the linedefs that go.
    fn collect_deleted_vertices(
        &self,
        vertex_ids: &Vec<u32>,
        linedef_ids: &Vec<u32>,
        sector_ids: &Vec<u32>,
        deleted: &Vec<u32>,
    ) -> (r: Vec<u32>)
        requires
            forall|x: u32| deleted@.contains(x) <==> deleted_linedef(*self, linedef_ids@, sector_ids@, x),
        ensures
            forall|x: u32| r@.contains(x) <==> deleted_vertex(*self, vertex_ids@, linedef_ids@, sector_ids@, x),
    {
        let ghost m = *self;
        let mut all = vertex_ids.clone();
        assert(all@ == vertex_ids@);
        let mut t: usize = 0;
        while t < deleted.len()
            invariant
                t <= deleted.len(),
                m == *self,
                forall|x: u32| deleted@.contains(x) <==> deleted_linedef(m, linedef_ids@, sector_ids@, x),
                forall|x: u32|
                    all@.contains(x) <==> (vertex_ids@.contains(x) || exists|t2: int|
                        0 <= t2 < t && #[trigger] orphaned_vertex(m, linedef_ids@, sector_ids@, deleted@[t2], x)),
            decreases deleted.len() - t,
        {
            let lid = deleted[t];
            let ghost before = all@;
            match self.linedef_index(lid) {
                Some(i) => {
                    let a = self.linedefs[i].start_vertex;
                    let b = self.linedefs[i].end_vertex;
                    let used_a = self.vertex_used_elsewhere(lid, a, deleted);
                    if !used_a && !contains_u32(&all, a) {
                        all.push(a);
                    }
                    let used_b = self.vertex_used_elsewhere(lid, b, deleted);
                    if !used_b && !contains_u32(&all, b) {
                        all.push(b);
                    }
                    assert forall|x: u32|
                        all@.contains(x) <==> (vertex_ids@.contains(x) || exists|t2: int|
                            0 <= t2 < t + 1 && #[trigger] orphaned_vertex(
                                m,
                                linedef_ids@,
                                sector_ids@,
                                deleted@[t2],
                                x,
                            )) by {
                        if orphaned_vertex(m, linedef_ids@, sector_ids@, lid, x) {
                            assert(x == a || x == b);
                            if x == a {
                                assert(!used_a);
                            } else {
                                assert(!used_b);
                            }
                        }
                        if all@.contains(x) && !before.contains(x) {
                            assert(x == a || x == b);
                            assert(orphaned_vertex(m, linedef_ids@, sector_ids@, deleted@[t as int], x));
                        }
                    }
                },
                None => {
                    assert forall|x: u32|
                        all@.contains(x) <==> (vertex_ids@.contains(x) || exists|t2: int|
                            0 <= t2 < t + 1 && #[trigger] orphaned_vertex(
                                m,
                                linedef_ids@,
                                sector_ids@,
                                deleted@[t2],
                                x,
                            )) by {
                        assert(!orphaned_vertex(m, linedef_ids@, sector_ids@, deleted@[t as int], x));
                    }
                },
            }
            t += 1;
        }
        assert forall|x: u32|
            all@.contains(x) <==> deleted_vertex(*self, vertex_ids@, linedef_ids@, sector_ids@, x) by {
            if exists|lid: u32|
                deleted_linedef(m, linedef_ids@, sector_ids@, lid) && #[trigger] orphaned_vertex(
                    m,
                    linedef_ids@,
                    sector_ids@,
                    lid,
                    x,
                ) {
                let lid = choose|lid: u32|
                    deleted_linedef(m, linedef_ids@, sector_ids@, lid) && #[trigger] orphaned_vertex(
                        m,
                        linedef_ids@,
                        sector_ids@,
                        lid,
                        x,
                    );
                assert(deleted@.contains(lid));
                let t2 = choose|t2: int| 0 <= t2 < deleted@.len() && deleted@[t2] == lid;
                assert(orphaned_vertex(m, linedef_ids@, sector_ids@, deleted@[t2], x));
            }
            if exists|t2: int|
                0 <= t2 < deleted@.len() && #[trigger] orphaned_vertex(m, linedef_ids@, sector_ids@, deleted@[t2], x) {
                let t2 = choose|t2: int|
                    0 <= t2 < deleted@.len() && #[trigger] orphaned_vertex(m, linedef_ids@, sector_ids@, deleted@[t2], x);
                assert(deleted@.contains(deleted@[t2]));
                assert(deleted_linedef(m, linedef_ids@, sector_ids@, deleted@[t2]));
            }
        }
        all
    }

    /// Deletes the given vertices, linedefs and sectors with their associated
    /// geometry. Linedefs that bound only deleted sectors go with them, vertices
    /// that are ends only of deleted linedefs go too, and so does every linedef
    /// that starts or ends at a deleted vertex. References of the remaining linedefs to deleted sectors
    /// are cleared, sectors drop references to deleted linedefs, and sectors left
    /// without linedefs are removed.
    pub fn delete_elements(&mut self, vertex_ids: &[u32], linedef_ids: &[u32], sector_ids: &[u32])
        ensures
            geometry_deleted(*old(self), *final(self), vertex_ids@, linedef_ids@, sector_ids@),
            super::same_settings(*old(self), *final(self)),
    {
        let vids = vstd::slice::slice_to_vec(vertex_ids);
        let lids = vstd::slice::slice_to_vec(linedef_ids);
        let sids = vstd::slice::slice_to_vec(sector_ids);
        let all_linedefs = self.collect_deleted_linedefs(&lids, &sids);
        let all_vertices = self.collect_deleted_vertices(&vids, &lids, &sids, &all_linedefs);
        let ghost m = *self;

        // Linedefs: clear references to deleted sectors, drop deleted linedefs.
        let ghost clear = |l: Linedef| clear_sector_refs(l, sids@);
        let ghost keep = |l: Linedef| linedef_stays(m, vids@, lids@, sids@, l);
        let mut new_linedefs: Vec<Linedef> = Vec::new();
        let mut i: usize = 0;
        while i < self.linedefs.len()
            invariant
                i <= self.linedefs.len(),
                m == *self,
                forall|x: u32| all_linedefs@.contains(x) <==> deleted_linedef(m, lids@, sids@, x),
                forall|x: u32| all_vertices@.contains(x) <==> deleted_vertex(m, vids@, lids@, sids@, x),
                clear == (|l: Linedef| clear_sector_refs(l, sids@)),
                keep == (|l: Linedef| linedef_stays(m, vids@, lids@, sids@, l)),
                new_linedefs@ == self.linedefs@.take(i as int).map_values(clear).filter(keep),
            decreases self.linedefs.len() - i,
        {
            let ghost pre = self.linedefs@.take(i as int);
            assert(self.linedefs@.take(i + 1) == pre.push(self.linedefs@[i as int]));
            assert(pre.push(self.linedefs@[i as int]).map_values(clear) == pre.map_values(clear).push(
                clear(self.linedefs@[i as int]),
            ));
            proof {
                pre.map_values(clear).lemma_filter_push(clear(self.linedefs@[i as int]), keep);
            }
            let l = &self.linedefs[i];
            if !contains_u32(&all_linedefs, l.id) && !contains_u32(&all_vertices, l.start_vertex)
                && !contains_u32(&all_vertices, l.end_vertex) {
                let mut c = copy_linedef(l);
                match c.front_sector {
                    Some(f) => {
                        if contains_u32(&sids, f) {
                            c.front_sector = None;
                        }
                    },
                    None => {},
                }
                match c.back_sector {
                    Some(b) => {
                        if contains_u32(&sids, b) {
                            c.back_sector = None;
                        }
                    },
                    None => {},
                }
                assert(c == clear(self.linedefs@[i as int]));
                new_linedefs.push(c);
            }
            i += 1;
        }
        assert(self.linedefs@.take(self.linedefs@.len() as int) == self.linedefs@);
        self.linedefs = new_linedefs;

        // Sectors: drop deleted ones, prune their linedef lists, drop empty ones.
        let mut valid: Vec<u32> = Vec::new();
        let mut v: usize = 0;
        while v < self.linedefs.len()
            invariant
                v <= self.linedefs.len(),
                valid@ == super::linedef_ids(self.linedefs@).take(v as int),
            decreases self.linedefs.len() - v,
        {
            valid.push(self.linedefs[v].id);
            v += 1;
        }
        assert(super::linedef_ids(self.linedefs@).take(self.linedefs@.len() as int) == super::linedef_ids(self.linedefs@));
        let mut new_sectors: Vec<Sector> = Vec::new();
        let mut k: usize = 0;
        while k < self.sectors.len()
            invariant
                k <= self.sectors.len(),
                self.sectors == m.sectors,
                valid@ == super::linedef_ids(self.linedefs@),
                new_sectors@.map_values(|s: Sector| sector_view(s)) == cleaned_sectors(
                    self.sectors@.take(k as int),
                    sids@,
                    valid@,
                ),
            decreases self.sectors.len() - k,
        {
            assert(self.sectors@.take(k + 1).drop_last() == self.sectors@.take(k as int));
            let s = &self.sectors[k];
            if !contains_u32(&sids, s.id) {
                let kept = retain_in(&s.linedefs, &valid);
                if kept.len() > 0 {
                    let ns = Sector {
                        id: s.id,
                        name: s.name.clone(),
                        linedefs: kept,
                        neighbours: s.neighbours.clone(),
                        layer: s.layer,
                    };
                    proof {
                        assert(ns.neighbours@ == s.neighbours@);
                    }
                    let ghost before = new_sectors@;
                    new_sectors.push(ns);
                    assert(new_sectors@.map_values(|s: Sector| sector_view(s)) == before.map_values(
                        |s: Sector| sector_view(s),
                    ).push(sector_view(ns)));
                }
            }
            k += 1;
        }
        assert(self.sectors@.take(self.sectors@.len() as int) == self.sectors@);
        self.sectors = new_sectors;

        // Vertices: drop the deleted ones.
        let ghost vkeep = |vx: Vertex| !deleted_vertex(m, vids@, lids@, sids@, vx.id);
        let mut new_vertices: Vec<Vertex> = Vec::new();
        let mut j: usize = 0;
        while j < self.vertices.len()
            invariant
                j <= self.vertices.len(),
                self.vertices == m.vertices,
                forall|x: u32| all_vertices@.contains(x) <==> deleted_vertex(m, vids@, lids@, sids@, x),
                vkeep == (|vx: Vertex| !deleted_vertex(m, vids@, lids@, sids@, vx.id)),
                new_vertices@ == self.vertices@.take(j as int).filter(vkeep),
            decreases self.vertices.len() - j,
        {
            assert(self.vertices@.take(j + 1) == self.vertices@.take(j as int).push(self.vertices@[j as int]));
            proof {
                self.vertices@.take(j as int).lemma_filter_push(self.vertices@[j as int], vkeep);
            }
            if !contains_u32(&all_vertices, self.vertices[j].id) {
                new_vertices.push(copy_vertex(&self.vertices[j]));
            }
            j += 1;
        }
        assert(self.vertices@.take(self.vertices@.len() as int) == self.vertices@);
        self.vertices = new_vertices;
    }
}

} // verus!
