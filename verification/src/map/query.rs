use vstd::prelude::*;

use super::delete::touches;
use super::linedef::Linedef;
use super::sector::Sector;
use super::vertex::Vertex;
use super::{first_id_index, linedef_ids, GameMap, MapCamera};
use crate::text::{decimal, from_literal, push_decimal, push_str};
use crate::util::contains_u32;

verus! {

broadcast use vstd::seq_lib::group_seq_properties;

/// Vertex `x` is an end of one of the (first occurrences of the) linedefs of sector `s`.
pub open spec fn sector_has_vertex(ls: Seq<Linedef>, s: Sector, x: u32) -> bool {
    exists|q: int|
        0 <= q < s.linedefs@.len() && #[trigger] first_id_index(linedef_ids(ls), s.linedefs@[q]) >= 0
            && touches(ls[first_id_index(linedef_ids(ls), s.linedefs@[q])], x)
}

/// Sector `s` is made of exactly the four given vertices: they are distinct and
/// are exactly the ends of the sector's linedefs.
pub open spec fn sector_has_exact_vertices(ls: Seq<Linedef>, s: Sector, quad: Seq<u32>) -> bool {
    &&& quad.no_duplicates()
    &&& forall|x: u32| sector_has_vertex(ls, s, x) <==> quad.contains(x)
}

/// Copies a vertex list.
pub fn copy_vertices(v: &Vec<Vertex>) -> (r: Vec<Vertex>)
    ensures
        r@ == v@,
{
    let mut out: Vec<Vertex> = Vec::new();
    let mut i: usize = 0;
    while i < v.len()
        invariant
            i <= v.len(),
            out@ == v@.take(i as int),
        decreases v.len() - i,
    {
        let x = &v[i];
        out.push(Vertex { id: x.id, name: x.name.clone(), x_bits: x.x_bits, y_bits: x.y_bits, z_bits: x.z_bits });
        assert(v@.take(i + 1) == v@.take(i as int).push(v@[i as int]));
        i += 1;
    }
    assert(v@.take(v@.len() as int) == v@);
    out
}

/// Copies a linedef list.
pub fn copy_linedefs(v: &Vec<Linedef>) -> (r: Vec<Linedef>)
    ensures
        r@ == v@,
{
    let mut out: Vec<Linedef> = Vec::new();
    let mut i: usize = 0;
    while i < v.len()
        invariant
            i <= v.len(),
            out@ == v@.take(i as int),
        decreases v.len() - i,
    {
        let x = &v[i];
        out.push(
            Linedef {
                id: x.id,
                creator_id: x.creator_id,
                name: x.name.clone(),
                start_vertex: x.start_vertex,
                end_vertex: x.end_vertex,
                front_sector: x.front_sector,
                back_sector: x.back_sector,
            },
        );
        assert(v@.take(i + 1) == v@.take(i as int).push(v@[i as int]));
        i += 1;
    }
    assert(v@.take(v@.len() as int) == v@);
    out
}

/// Copies a sector; the copy has the same contents.
pub fn copy_sector(x: &Sector) -> (r: Sector)
    ensures
        r.id == x.id,
        r.name == x.name,
        r.linedefs@ == x.linedefs@,
        r.neighbours@ == x.neighbours@,
        r.layer == x.layer,
{
    Sector {
        id: x.id,
        name: x.name.clone(),
        linedefs: x.linedefs.clone(),
        neighbours: x.neighbours.clone(),
        layer: x.layer,
    }
}

/// Copies a sector list; the copies have the same contents.
pub fn copy_sectors(v: &Vec<Sector>) -> (r: Vec<Sector>)
    ensures
        r@.map_values(|s: Sector| super::delete::sector_view(s)) == v@.map_values(
            |s: Sector| super::delete::sector_view(s),
        ),
{
    let mut out: Vec<Sector> = Vec::new();
    let mut i: usize = 0;
    while i < v.len()
        invariant
            i <= v.len(),
            out@.map_values(|s: Sector| super::delete::sector_view(s)) == v@.take(i as int).map_values(
                |s: Sector| super::delete::sector_view(s),
            ),
        decreases v.len() - i,
    {
        let c = copy_sector(&v[i]);
        let ghost before = out@;
        out.push(c);
        assert(out@.map_values(|s: Sector| super::delete::sector_view(s)) == before.map_values(
            |s: Sector| super::delete::sector_view(s),
        ).push(super::delete::sector_view(c)));
        assert(v@.take(i + 1) == v@.take(i as int).push(v@[i as int]));
        assert(v@.take(i + 1).map_values(|s: Sector| super::delete::sector_view(s)) == v@.take(
            i as int,
        ).map_values(|s: Sector| super::delete::sector_view(s)).push(
            super::delete::sector_view(v@[i as int]),
        ));
        i += 1;
    }
    assert(v@.take(v@.len() as int) == v@);
    out
}

impl GameMap {
    /// A short summary of the map: "V <vertices>, L <linedefs>, S <sectors>".
    pub fn info(&self) -> (r: String)
        ensures
            r@ == "V "@ + decimal(self.vertices@.len()) + ", L "@ + decimal(self.linedefs@.len())
                + ", S "@ + decimal(self.sectors@.len()),
    {
        let mut s = from_literal("V ");
        push_decimal(&mut s, self.vertices.len());
        push_str(&mut s, ", L ");
        push_decimal(&mut s, self.linedefs.len());
        push_str(&mut s, ", S ");
        push_decimal(&mut s, self.sectors.len());
        s
    }

    /// A copy of the map's geometry only: same vertices, linedefs, sectors and
    /// camera under a new id, named "<name> (geometry_clone)", with no selection
    /// and no open polygon.
    pub fn geometry_clone(&self) -> (r: GameMap)
        ensures
            r.name@ == self.name@ + " (geometry_clone)"@,
            r.vertices@ == self.vertices@,
            r.linedefs@ == self.linedefs@,
            r.sectors@.map_values(|s: Sector| super::delete::sector_view(s)) == self.sectors@.map_values(
                |s: Sector| super::delete::sector_view(s),
            ),
            r.camera == self.camera,
            r.possible_polygon@.len() == 0,
            r.selected_vertices@.len() == 0,
            r.selected_linedefs@.len() == 0,
            r.selected_sectors@.len() == 0,
            r.selected_light is None,
            r.selected_entity_item is None,
            r.changed == 0,
    {
        let mut name = self.name.clone();
        push_str(&mut name, " (geometry_clone)");
        GameMap {
            id: crate::ids::new_uuid(),
            name,
            possible_polygon: Vec::new(),
            vertices: copy_vertices(&self.vertices),
            linedefs: copy_linedefs(&self.linedefs),
            sectors: copy_sectors(&self.sectors),
            camera: self.camera,
            selected_vertices: Vec::new(),
            selected_linedefs: Vec::new(),
            selected_sectors: Vec::new(),
            selected_light: None,
            selected_entity_item: None,
            changed: 0,
        }
    }

    /// The ends of the linedefs of sector `k`, with repetitions.
    fn sector_vertex_list(&self, k: usize) -> (r: Vec<u32>)
        requires
            k < self.sectors@.len(),
        ensures
            forall|x: u32| r@.contains(x) <==> sector_has_vertex(self.linedefs@, self.sectors@[k as int], x),
    {
        let s = &self.sectors[k];
        let mut out: Vec<u32> = Vec::new();
        let mut q: usize = 0;
        while q < s.linedefs.len()
            invariant
                k < self.sectors@.len(),
                s == self.sectors@[k as int],
                q <= s.linedefs.len(),
                forall|x: u32|
                    out@.contains(x) <==> exists|q2: int|
                        0 <= q2 < q && #[trigger] first_id_index(linedef_ids(self.linedefs@), s.linedefs@[q2]) >= 0
                            && touches(
                            self.linedefs@[first_id_index(linedef_ids(self.linedefs@), s.linedefs@[q2])],
                            x,
                        ),
            decreases s.linedefs.len() - q,
        {
            let ghost before = out@;
            match self.linedef_index(s.linedefs[q]) {
                Some(i) => {
                    out.push(self.linedefs[i].start_vertex);
                    out.push(self.linedefs[i].end_vertex);
                    assert forall|x: u32|
                        out@.contains(x) <==> exists|q2: int|
                            0 <= q2 < q + 1 && #[trigger] first_id_index(linedef_ids(self.linedefs@), s.linedefs@[q2])
                                >= 0 && touches(
                                self.linedefs@[first_id_index(linedef_ids(self.linedefs@), s.linedefs@[q2])],
                                x,
                            ) by {
                        if out@.contains(x) && !before.contains(x) {
                            assert(first_id_index(linedef_ids(self.linedefs@), s.linedefs@[q as int]) >= 0);
                        }
                        if exists|q2: int|
                            0 <= q2 < q + 1 && #[trigger] first_id_index(linedef_ids(self.linedefs@), s.linedefs@[q2])
                                >= 0 && touches(
                                self.linedefs@[first_id_index(linedef_ids(self.linedefs@), s.linedefs@[q2])],
                                x,
                            ) {
                            let q2 = choose|q2: int|
                                0 <= q2 < q + 1 && #[trigger] first_id_index(linedef_ids(self.linedefs@), s.linedefs@[q2])
                                    >= 0 && touches(
                                    self.linedefs@[first_id_index(linedef_ids(self.linedefs@), s.linedefs@[q2])],
                                    x,
                                );
                            if q2 == q {
                                assert(out@[out@.len() - 1] == self.linedefs@[i as int].end_vertex);
                                assert(out@[out@.len() - 2] == self.linedefs@[i as int].start_vertex);
                            } else {
                                assert(before.contains(x));
                            }
                        }
                    }
                },
                None => {},
            }
            q += 1;
        }
        out
    }

    /// The ids of the sectors, in order, made of exactly the four given vertices
    /// (used to stack tiles with the rect tool).
    pub fn find_sectors_with_vertex_indices(&self, vertex_indices: &[u32; 4]) -> (r: Vec<u32>)
        ensures
            r@ == self.sectors@.filter(
                |s: Sector| sector_has_exact_vertices(self.linedefs@, s, vertex_indices@),
            ).map_values(|s: Sector| s.id),
    {
        let quad = vstd::slice::slice_to_vec(vertex_indices.as_slice());
        let distinct = quad[0] != quad[1] && quad[0] != quad[2] && quad[0] != quad[3]
            && quad[1] != quad[2] && quad[1] != quad[3] && quad[2] != quad[3];
        assert(distinct == quad@.no_duplicates());
        let ghost pred = |s: Sector| sector_has_exact_vertices(self.linedefs@, s, vertex_indices@);
        let mut out: Vec<u32> = Vec::new();
        let mut k: usize = 0;
        while k < self.sectors.len()
            invariant
                k <= self.sectors.len(),
                quad@ == vertex_indices@,
                quad@.len() == 4,
                distinct == quad@.no_duplicates(),
                pred == (|s: Sector| sector_has_exact_vertices(self.linedefs@, s, vertex_indices@)),
                out@ == self.sectors@.take(k as int).filter(pred).map_values(|s: Sector| s.id),
            decreases self.sectors.len() - k,
        {
            let list = self.sector_vertex_list(k);
            let mut matches = distinct;
            let mut a: usize = 0;
            while a < list.len()
                invariant
                    a <= list.len(),
                    matches ==> forall|t: int| 0 <= t < a ==> quad@.contains(#[trigger] list@[t]),
                    matches ==> distinct,
                    !matches ==> !(distinct && forall|t: int| 0 <= t < list@.len() ==> quad@.contains(#[trigger] list@[t])),
                decreases list.len() - a,
            {
                if !contains_u32(&quad, list[a]) {
                    matches = false;
                }
                a += 1;
            }
            let mut b: usize = 0;
            while b < 4
                invariant
                    b <= 4,
                    quad@.len() == 4,
                    matches ==> forall|t: int| 0 <= t < b ==> list@.contains(#[trigger] quad@[t]),
                    matches ==> (distinct && forall|t: int| 0 <= t < list@.len() ==> quad@.contains(#[trigger] list@[t])),
                    !matches ==> !(distinct && (forall|t: int| 0 <= t < list@.len() ==> quad@.contains(#[trigger] list@[t]))
                        && (forall|t: int| 0 <= t < 4 ==> list@.contains(#[trigger] quad@[t]))),
                decreases 4 - b,
            {
                if !contains_u32(&list, quad[b]) {
                    matches = false;
                }
                b += 1;
            }
            proof {
                let s = self.sectors@[k as int];
                if matches {
                    assert forall|x: u32| sector_has_vertex(self.linedefs@, s, x) <==> quad@.contains(x) by {
                        if quad@.contains(x) {
                            let t = choose|t: int| 0 <= t < 4 && quad@[t] == x;
                            assert(list@.contains(quad@[t]));
                        }
                        if list@.contains(x) {
                            let t = choose|t: int| 0 <= t < list@.len() && list@[t] == x;
                            assert(quad@.contains(list@[t]));
                        }
                    }
                    assert(pred(s));
                } else {
                    if pred(s) {
                        assert forall|t: int| 0 <= t < list@.len() implies quad@.contains(#[trigger] list@[t]) by {
                            assert(list@.contains(list@[t]));
                        }
                        assert forall|t: int| 0 <= t < 4 implies list@.contains(#[trigger] quad@[t]) by {
                            assert(quad@.contains(quad@[t]));
                        }
                    }
                    assert(!pred(s));
                }
                let pre = self.sectors@.take(k as int);
                assert(self.sectors@.take(k + 1) == pre.push(s));
                pre.lemma_filter_push(s, pred);
            }
            if matches {
                out.push(self.sectors[k].id);
            }
            k += 1;
        }
        assert(self.sectors@.take(self.sectors@.len() as int) == self.sectors@);
        out
    }
}

} // verus!
