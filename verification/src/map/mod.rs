pub mod clipboard;
pub mod delete;
pub mod edit;
pub mod linedef;
pub mod query;
pub mod sector;
pub mod vertex;

use vstd::prelude::*;

use self::linedef::Linedef;
use self::sector::Sector;
use self::vertex::Vertex;

verus! {

broadcast use vstd::seq_lib::group_seq_properties;

/// How the map is viewed in the editor.
#[derive(PartialEq, Eq, Structural, Clone, Copy, Debug)]
pub enum MapCamera {
    TwoD,
    ThreeDIso,
    ThreeDFirstPerson,
}

/// The editing tool that is active on a map.
#[derive(PartialEq, Eq, Structural, Clone, Copy, Debug)]
pub enum MapToolType {
    General,
    Selection,
    Vertex,
    Linedef,
    Sector,
    Effects,
    Rect,
    Game,
    MiniMap,
    World,
}

/// The ids of a sequence of vertices, in order.
pub open spec fn vertex_ids(vs: Seq<Vertex>) -> Seq<u32> {
    vs.map_values(|v: Vertex| v.id)
}

/// The ids of a sequence of linedefs, in order.
pub open spec fn linedef_ids(ls: Seq<Linedef>) -> Seq<u32> {
    ls.map_values(|l: Linedef| l.id)
}

/// The ids of a sequence of sectors, in order.
pub open spec fn sector_ids(ss: Seq<Sector>) -> Seq<u32> {
    ss.map_values(|s: Sector| s.id)
}

/// `i` is the first position of `id` in `ids`.
pub open spec fn is_first_id(ids: Seq<u32>, id: u32, i: int) -> bool {
    &&& 0 <= i < ids.len()
    &&& ids[i] == id
    &&& forall|j: int| 0 <= j < i ==> ids[j] != id
}

/// The first position of `id` in `ids`, or -1 when it does not occur.
pub open spec fn first_id_index(ids: Seq<u32>, id: u32) -> int {
    if ids.contains(id) {
        choose|i: int| is_first_id(ids, id, i)
    } else {
        -1
    }
}

/// Every id that occurs has a first occurrence, and `first_id_index` names it.
pub proof fn lemma_first_id_index(ids: Seq<u32>, id: u32, k: int)
    requires
        0 <= k < ids.len(),
        ids[k] == id,
    ensures
        is_first_id(ids, id, first_id_index(ids, id)),
    decreases k,
{
    if exists|j: int| 0 <= j < k && ids[j] == id {
        let j = choose|j: int| 0 <= j < k && ids[j] == id;
        lemma_first_id_index(ids, id, j);
    } else {
        assert(is_first_id(ids, id, k));
        assert(ids.contains(id));
    }
}

/// When `id` occurs in `ids`, `first_id_index` names its first position.
pub proof fn lemma_first_id_index_contains(ids: Seq<u32>, id: u32)
    ensures
        ids.contains(id) ==> is_first_id(ids, id, first_id_index(ids, id)),
{
    if ids.contains(id) {
        let k = choose|k: int| 0 <= k < ids.len() && ids[k] == id;
        lemma_first_id_index(ids, id, k);
    }
}

/// `sel` extended by each element of `add` that it does not already hold, in order.
pub open spec fn add_unique(sel: Seq<u32>, add: Seq<u32>) -> Seq<u32>
    decreases add.len(),
{
    if add.len() == 0 {
        sel
    } else {
        let prev = add_unique(sel, add.drop_last());
        if prev.contains(add.last()) {
            prev
        } else {
            prev.push(add.last())
        }
    }
}

/// Adding ids to a list keeps it free of duplicates; the list then holds
/// exactly what it held plus the added ids, and begins with what it held.
pub proof fn lemma_add_unique(sel: Seq<u32>, add: Seq<u32>)
    ensures
        sel.no_duplicates() ==> add_unique(sel, add).no_duplicates(),
        forall|x: u32| #[trigger] add_unique(sel, add).contains(x) <==> sel.contains(x) || add.contains(x),
        sel.len() <= add_unique(sel, add).len(),
        add_unique(sel, add).take(sel.len() as int) == sel,
    decreases add.len(),
{
    if add.len() > 0 {
        lemma_add_unique(sel, add.drop_last());
        let prev = add_unique(sel, add.drop_last());
        assert forall|x: u32| add.contains(x) <==> add.drop_last().contains(x) || x == add.last() by {
            if add.contains(x) {
                let k = choose|k: int| 0 <= k < add.len() && add[k] == x;
                if k < add.len() - 1 {
                    assert(add.drop_last()[k] == x);
                }
            }
            if add.drop_last().contains(x) {
                let k = choose|k: int| 0 <= k < add.drop_last().len() && add.drop_last()[k] == x;
                assert(add[k] == x);
            }
        }
        if !prev.contains(add.last()) {
            let next = prev.push(add.last());
            assert(next.take(sel.len() as int) =~= prev.take(sel.len() as int));
            assert forall|x: u32| next.contains(x) <==> prev.contains(x) || x == add.last() by {
                if next.contains(x) {
                    let k = choose|k: int| 0 <= k < next.len() && next[k] == x;
                    if k < prev.len() {
                        assert(prev[k] == x);
                    }
                }
                if prev.contains(x) {
                    let k = choose|k: int| 0 <= k < prev.len() && prev[k] == x;
                    assert(next[k] == x);
                }
            }
        }
    }
}

/// `sel` without any element that occurs in `remove`, order kept.
pub open spec fn remove_all(sel: Seq<u32>, remove: Seq<u32>) -> Seq<u32> {
    sel.filter(|x: u32| !remove.contains(x))
}

proof fn lemma_add_unique_filtered(sel: Seq<u32>, add: Seq<u32>, r: Seq<u32>)
    requires
        forall|x: u32| add.contains(x) ==> r.contains(x),
    ensures
        add_unique(sel, add).filter(|x: u32| !r.contains(x)) == sel.filter(|x: u32| !r.contains(x)),
    decreases add.len(),
{
    if add.len() > 0 {
        assert forall|x: u32| add.drop_last().contains(x) implies r.contains(x) by {
            let k = choose|k: int| 0 <= k < add.drop_last().len() && add.drop_last()[k] == x;
            assert(add[k] == x);
        }
        lemma_add_unique_filtered(sel, add.drop_last(), r);
        let prev = add_unique(sel, add.drop_last());
        let pred = |x: u32| !r.contains(x);
        if !prev.contains(add.last()) {
            prev.lemma_filter_push(add.last(), pred);
            assert(add.contains(add.last()));
        }
    }
}

/// Adding ids to a selection and then removing the same ids leaves the
/// selection without those ids, as if only the removal had happened.
pub proof fn lemma_add_then_remove(sel: Seq<u32>, ids: Seq<u32>)
    ensures
        remove_all(add_unique(sel, ids), ids) == remove_all(sel, ids),
{
    lemma_add_unique_filtered(sel, ids, ids);
}

/// A linedef can be walked through when it bounds a sector on both sides.
pub open spec fn linedef_passable(ls: Seq<Linedef>, id: u32) -> bool {
    let i = first_id_index(linedef_ids(ls), id);
    i >= 0 && ls[i].front_sector is Some && ls[i].back_sector is Some
}

/// The sector reached from `sector_id` through linedef `linedef_id`, if the linedef
/// is passable: its front sector when that differs, else its back sector when that differs.
pub open spec fn neighbor_through(ls: Seq<Linedef>, sector_id: u32, linedef_id: u32) -> Option<u32> {
    let i = first_id_index(linedef_ids(ls), linedef_id);
    if i >= 0 && linedef_passable(ls, linedef_id) {
        let l = ls[i];
        if l.front_sector is Some && l.front_sector->0 != sector_id {
            l.front_sector
        } else if l.back_sector is Some && l.back_sector->0 != sector_id {
            l.back_sector
        } else {
            None
        }
    } else {
        None
    }
}


/// `ls` after linedef `id` (its first occurrence) has been given sector `sid`:
/// as front sector when it has none, else as back sector when it has none.
pub open spec fn assign_one(ls: Seq<Linedef>, id: u32, sid: u32) -> Seq<Linedef> {
    let i = first_id_index(linedef_ids(ls), id);
    if i < 0 {
        ls
    } else if ls[i].front_sector is None {
        ls.update(i, Linedef { front_sector: Some(sid), ..ls[i] })
    } else if ls[i].back_sector is None {
        ls.update(i, Linedef { back_sector: Some(sid), ..ls[i] })
    } else {
        ls
    }
}

/// `ls` after `assign_one` for each id of `ids`, in order.
pub open spec fn assign_all(ls: Seq<Linedef>, ids: Seq<u32>, sid: u32) -> Seq<Linedef>
    decreases ids.len(),
{
    if ids.len() == 0 {
        ls
    } else {
        assign_one(assign_all(ls, ids.drop_last(), sid), ids.last(), sid)
    }
}

/// Giving sector `sid` to linedef `id` never takes a sector away from a
/// linedef: every side that already names a sector keeps it. Only the first
/// linedef with that id changes, and only in its sides: it gets `sid` as
/// front sector when it had none, else as back sector when it had none.
pub proof fn lemma_assign_one_keeps_sides(ls: Seq<Linedef>, id: u32, sid: u32)
    ensures
        assign_one(ls, id, sid).len() == ls.len(),
        forall|j: int|
            0 <= j < ls.len() ==> {
                let a = #[trigger] assign_one(ls, id, sid)[j];
                &&& a.id == ls[j].id
                &&& a.creator_id == ls[j].creator_id
                &&& a.name == ls[j].name
                &&& a.start_vertex == ls[j].start_vertex
                &&& a.end_vertex == ls[j].end_vertex
                &&& (ls[j].front_sector is Some ==> a.front_sector == ls[j].front_sector)
                &&& (ls[j].back_sector is Some ==> a.back_sector == ls[j].back_sector)
                &&& (a != ls[j] ==> ls[j].id == id && forall|k: int| 0 <= k < j ==> ls[k].id != id)
            },
        forall|j: int|
            0 <= j < ls.len() && ls[j].id == id && (forall|k: int| 0 <= k < j ==> ls[k].id != id) ==> {
                let a = #[trigger] assign_one(ls, id, sid)[j];
                &&& (ls[j].front_sector is None ==> a.front_sector == Some(sid) && a.back_sector == ls[j].back_sector)
                &&& (ls[j].front_sector is Some && ls[j].back_sector is None ==> a.back_sector == Some(sid))
            },
{
    let ids = linedef_ids(ls);
    lemma_first_id_index_contains(ids, id);
    let i = first_id_index(ids, id);
    if i >= 0 {
        assert(ls[i].id == ids[i]);
        assert forall|k: int| 0 <= k < i implies ls[k].id != id by {
            assert(ids[k] == ls[k].id);
        }
    }
    assert forall|j: int| 0 <= j < ls.len() && ls[j].id == id && (forall|k: int| 0 <= k < j ==> ls[k].id != id)
        implies j == i by {
        assert(ids[j] == id);
        assert(ids.contains(id));
        if i < j {
            assert(ids[i] == id);
        }
        if j < i {
            assert(ids[j] != id);
        }
    }
}

/// Giving a sector to several linedefs never takes a sector away from a
/// linedef: every side that already names a sector keeps it, and the ids and
/// ends of the linedefs stay.
pub proof fn lemma_assign_all_keeps_sides(ls: Seq<Linedef>, ids: Seq<u32>, sid: u32)
    ensures
        assign_all(ls, ids, sid).len() == ls.len(),
        forall|j: int|
            0 <= j < ls.len() ==> {
                let a = #[trigger] assign_all(ls, ids, sid)[j];
                &&& a.id == ls[j].id
                &&& a.start_vertex == ls[j].start_vertex
                &&& a.end_vertex == ls[j].end_vertex
                &&& (ls[j].front_sector is Some ==> a.front_sector == ls[j].front_sector)
                &&& (ls[j].back_sector is Some ==> a.back_sector == ls[j].back_sector)
            },
    decreases ids.len(),
{
    if ids.len() > 0 {
        let prev = assign_all(ls, ids.drop_last(), sid);
        lemma_assign_all_keeps_sides(ls, ids.drop_last(), sid);
        lemma_assign_one_keeps_sides(prev, ids.last(), sid);
        assert forall|j: int| 0 <= j < ls.len() implies {
            let a = #[trigger] assign_all(ls, ids, sid)[j];
            &&& a.id == ls[j].id
            &&& a.start_vertex == ls[j].start_vertex
            &&& a.end_vertex == ls[j].end_vertex
            &&& (ls[j].front_sector is Some ==> a.front_sector == ls[j].front_sector)
            &&& (ls[j].back_sector is Some ==> a.back_sector == ls[j].back_sector)
        } by {
            assert(prev[j] == assign_all(ls, ids.drop_last(), sid)[j]);
            assert(assign_all(ls, ids, sid)[j] == assign_one(prev, ids.last(), sid)[j]);
        }
    }
}

/// Assigning sectors never changes the ids of the linedefs.
pub proof fn lemma_assign_all_ids(ls: Seq<Linedef>, ids: Seq<u32>, sid: u32)
    ensures
        linedef_ids(assign_all(ls, ids, sid)) == linedef_ids(ls),
        assign_all(ls, ids, sid).len() == ls.len(),
    decreases ids.len(),
{
    if ids.len() > 0 {
        lemma_assign_all_ids(ls, ids.drop_last(), sid);
        let prev = assign_all(ls, ids.drop_last(), sid);
        let next = assign_one(prev, ids.last(), sid);
        lemma_first_id_index_contains(linedef_ids(prev), ids.last());
        assert(next.len() == prev.len());
        assert forall|j: int| 0 <= j < prev.len() implies next[j].id == prev[j].id by {}
        assert(linedef_ids(next) =~= linedef_ids(prev));
    }
}

/// Sector `s` is made of exactly as many linedefs as `lds`, each of which occurs in `lds`.
pub open spec fn sector_matches(s: Sector, lds: Seq<u32>) -> bool {
    s.linedefs@.len() == lds.len() && forall|k: int| 0 <= k < s.linedefs@.len() ==> lds.contains(#[trigger] s.linedefs@[k])
}

/// The fields that the geometry operations leave alone are equal.
pub open spec fn same_settings(a: GameMap, b: GameMap) -> bool {
    &&& a.id == b.id
    &&& a.name == b.name
    &&& a.camera == b.camera
    &&& a.selected_vertices == b.selected_vertices
    &&& a.selected_linedefs == b.selected_linedefs
    &&& a.selected_sectors == b.selected_sectors
    &&& a.selected_light == b.selected_light
    &&& a.selected_entity_item == b.selected_entity_item
    &&& a.changed == b.changed
}

/// What closing the drawn polygon into a sector does, from map `a` to map `b`, returning `r`.
pub open spec fn sector_created(a: GameMap, b: GameMap, r: Option<u32>) -> bool {
    &&& same_settings(a, b)
    &&& b.vertices == a.vertices
    &&& if !a.polygon_closed() {
        r is None && b.possible_polygon == a.possible_polygon && b.linedefs == a.linedefs
            && b.sectors == a.sectors
    } else if exists|k: int| 0 <= k < a.sectors@.len() && #[trigger] sector_matches(a.sectors@[k], a.possible_polygon@) {
        r is None && b.possible_polygon@.len() == 0 && b.linedefs == a.linedefs && b.sectors
            == a.sectors
    } else {
        match r {
            Some(sid) => {
                &&& !a.has_sector(sid)
                &&& forall|j: u32| j < sid ==> a.has_sector(j)
                &&& b.linedefs@ == assign_all(a.linedefs@, a.possible_polygon@, sid)
                &&& b.sectors@.len() == a.sectors@.len() + 1
                &&& b.sectors@.drop_last() == a.sectors@
                &&& b.sectors@.last().id == sid
                &&& b.sectors@.last().linedefs@ == a.possible_polygon@
                &&& b.sectors@.last().name@ == Seq::<char>::empty()
                &&& b.sectors@.last().neighbours@ == Seq::<u32>::empty()
                &&& b.sectors@.last().layer is None
                &&& b.possible_polygon@.len() == 0
            },
            None => {
                &&& forall|j: u32| a.has_sector(j)
                &&& b.possible_polygon == a.possible_polygon
                &&& b.linedefs == a.linedefs
                &&& b.sectors == a.sectors
            },
        }
    }
}

/// The editable map: its geometry (vertices, linedefs, sectors) as ids and
/// references between them, the polygon being drawn, and the selection.
#[derive(Clone, Debug)]
pub struct GameMap {
    pub id: uuid::Uuid,
    pub name: String,
    /// Linedefs added since the last closed polygon, in drawing order.
    pub possible_polygon: Vec<u32>,
    pub vertices: Vec<Vertex>,
    pub linedefs: Vec<Linedef>,
    pub sectors: Vec<Sector>,
    pub camera: MapCamera,
    pub selected_vertices: Vec<u32>,
    pub selected_linedefs: Vec<u32>,
    pub selected_sectors: Vec<u32>,
    pub selected_light: Option<u32>,
    pub selected_entity_item: Option<uuid::Uuid>,
    /// Change counter.
    pub changed: u32,
}

impl GameMap {
    /// Whether some vertex has the given id.
    pub open spec fn has_vertex(self, id: u32) -> bool {
        vertex_ids(self.vertices@).contains(id)
    }

    /// Whether some linedef has the given id.
    pub open spec fn has_linedef(self, id: u32) -> bool {
        linedef_ids(self.linedefs@).contains(id)
    }

    /// Whether some sector has the given id.
    pub open spec fn has_sector(self, id: u32) -> bool {
        sector_ids(self.sectors@).contains(id)
    }

    /// Creates an empty map named "New Map" in the 2D camera mode.
    pub fn new() -> (m: Self)
        ensures
            m.name@ == "New Map"@,
            m.possible_polygon@.len() == 0,
            m.vertices@.len() == 0,
            m.linedefs@.len() == 0,
            m.sectors@.len() == 0,
            m.camera == MapCamera::TwoD,
            m.selected_vertices@.len() == 0,
            m.selected_linedefs@.len() == 0,
            m.selected_sectors@.len() == 0,
            m.selected_light is None,
            m.selected_entity_item is None,
            m.changed == 0,
    {
        GameMap {
            id: crate::ids::new_uuid(),
            name: crate::text::from_literal("New Map"),
            possible_polygon: Vec::new(),
            vertices: Vec::new(),
            linedefs: Vec::new(),
            sectors: Vec::new(),
            camera: MapCamera::TwoD,
            selected_vertices: Vec::new(),
            selected_linedefs: Vec::new(),
            selected_sectors: Vec::new(),
            selected_light: None,
            selected_entity_item: None,
            changed: 0,
        }
    }

    /// Clears the temporary drawing state: the open polygon and the selected light.
    pub fn clear_temp(&mut self)
        ensures
            final(self).possible_polygon@.len() == 0,
            final(self).selected_light is None,
            final(self).vertices == old(self).vertices,
            final(self).linedefs == old(self).linedefs,
            final(self).sectors == old(self).sectors,
            final(self).selected_vertices == old(self).selected_vertices,
            final(self).selected_linedefs == old(self).selected_linedefs,
            final(self).selected_sectors == old(self).selected_sectors,
            final(self).selected_entity_item == old(self).selected_entity_item,
    {
        self.possible_polygon = Vec::new();
        self.selected_light = None;
    }

    /// Clears the selection of geometry, light and entity or item.
    pub fn clear_selection(&mut self)
        ensures
            final(self).selected_vertices@.len() == 0,
            final(self).selected_linedefs@.len() == 0,
            final(self).selected_sectors@.len() == 0,
            final(self).selected_light is None,
            final(self).selected_entity_item is None,
            final(self).vertices == old(self).vertices,
            final(self).linedefs == old(self).linedefs,
            final(self).sectors == old(self).sectors,
            final(self).possible_polygon == old(self).possible_polygon,
            final(self).id == old(self).id,
            final(self).name == old(self).name,
            final(self).camera == old(self).camera,
            final(self).changed == old(self).changed,
    {
        self.selected_vertices = Vec::new();
        self.selected_linedefs = Vec::new();
        self.selected_sectors = Vec::new();
        self.selected_light = None;
        self.selected_entity_item = None;
    }

    /// The position of the first vertex with the given id.
    pub fn vertex_index(&self, id: u32) -> (r: Option<usize>)
        ensures
            match r {
                Some(i) => is_first_id(vertex_ids(self.vertices@), id, i as int)
                    && first_id_index(vertex_ids(self.vertices@), id) == i as int,
                None => !self.has_vertex(id) && first_id_index(vertex_ids(self.vertices@), id) == -1,
            },
    {
        let ghost ids = vertex_ids(self.vertices@);
        let mut i: usize = 0;
        while i < self.vertices.len()
            invariant
                i <= self.vertices.len(),
                ids == vertex_ids(self.vertices@),
                forall|j: int| 0 <= j < i ==> ids[j] != id,
            decreases self.vertices.len() - i,
        {
            if self.vertices[i].id == id {
                proof {
                    lemma_first_id_index(ids, id, i as int);
                }
                return Some(i);
            }
            i += 1;
        }
        None
    }

    /// The position of the first linedef with the given id.
    pub fn linedef_index(&self, id: u32) -> (r: Option<usize>)
        ensures
            match r {
                Some(i) => is_first_id(linedef_ids(self.linedefs@), id, i as int)
                    && first_id_index(linedef_ids(self.linedefs@), id) == i as int,
                None => !self.has_linedef(id) && first_id_index(linedef_ids(self.linedefs@), id) == -1,
            },
    {
        let ghost ids = linedef_ids(self.linedefs@);
        let mut i: usize = 0;
        while i < self.linedefs.len()
            invariant
                i <= self.linedefs.len(),
                ids == linedef_ids(self.linedefs@),
                forall|j: int| 0 <= j < i ==> ids[j] != id,
            decreases self.linedefs.len() - i,
        {
            if self.linedefs[i].id == id {
                proof {
                    lemma_first_id_index(ids, id, i as int);
                }
                return Some(i);
            }
            i += 1;
        }
        None
    }

    /// The position of the first sector with the given id.
    pub fn sector_index(&self, id: u32) -> (r: Option<usize>)
        ensures
            match r {
                Some(i) => is_first_id(sector_ids(self.sectors@), id, i as int)
                    && first_id_index(sector_ids(self.sectors@), id) == i as int,
                None => !self.has_sector(id) && first_id_index(sector_ids(self.sectors@), id) == -1,
            },
    {
        let ghost ids = sector_ids(self.sectors@);
        let mut i: usize = 0;
        while i < self.sectors.len()
            invariant
                i <= self.sectors.len(),
                ids == sector_ids(self.sectors@),
                forall|j: int| 0 <= j < i ==> ids[j] != id,
            decreases self.sectors.len() - i,
        {
            if self.sectors[i].id == id {
                proof {
                    lemma_first_id_index(ids, id, i as int);
                }
                return Some(i);
            }
            i += 1;
        }
        None
    }

    /// Finds the first vertex with the given id.
    pub fn find_vertex(&self, id: u32) -> (r: Option<&Vertex>)
        ensures
            match r {
                Some(v) => {
                    let i = first_id_index(vertex_ids(self.vertices@), id);
                    i >= 0 && *v == self.vertices@[i] && v.id == id
                },
                None => !self.has_vertex(id),
            },
    {
        match self.vertex_index(id) {
            Some(i) => Some(&self.vertices[i]),
            None => None,
        }
    }

    /// Finds the first linedef with the given id.
    pub fn find_linedef(&self, id: u32) -> (r: Option<&Linedef>)
        ensures
            match r {
                Some(l) => {
                    let i = first_id_index(linedef_ids(self.linedefs@), id);
                    i >= 0 && *l == self.linedefs@[i] && l.id == id
                },
                None => !self.has_linedef(id),
            },
    {
        match self.linedef_index(id) {
            Some(i) => Some(&self.linedefs[i]),
            None => None,
        }
    }

    /// Finds the first sector with the given id.
    pub fn find_sector(&self, id: u32) -> (r: Option<&Sector>)
        ensures
            match r {
                Some(s) => {
                    let i = first_id_index(sector_ids(self.sectors@), id);
                    i >= 0 && *s == self.sectors@[i] && s.id == id
                },
                None => !self.has_sector(id),
            },
    {
        match self.sector_index(id) {
            Some(i) => Some(&self.sectors[i]),
            None => None,
        }
    }

    /// The smallest vertex id that no vertex uses, if there is one.
    pub fn find_free_vertex_id(&self) -> (r: Option<u32>)
        ensures
            match r {
                Some(id) => !self.has_vertex(id) && forall|j: u32| j < id ==> self.has_vertex(j),
                None => forall|j: u32| self.has_vertex(j),
            },
    {
        let mut candidate: u32 = 0;
        loop
            invariant
                forall|j: u32| j < candidate ==> self.has_vertex(j),
            decreases u32::MAX - candidate,
        {
            if self.vertex_index(candidate).is_none() {
                return Some(candidate);
            }
            if candidate == u32::MAX {
                return None;
            }
            candidate = candidate + 1;
        }
    }

    /// The smallest linedef id that no linedef uses, if there is one.
    pub fn find_free_linedef_id(&self) -> (r: Option<u32>)
        ensures
            match r {
                Some(id) => !self.has_linedef(id) && forall|j: u32| j < id ==> self.has_linedef(j),
                None => forall|j: u32| self.has_linedef(j),
            },
    {
        let mut candidate: u32 = 0;
        loop
            invariant
                forall|j: u32| j < candidate ==> self.has_linedef(j),
            decreases u32::MAX - candidate,
        {
            if self.linedef_index(candidate).is_none() {
                return Some(candidate);
            }
            if candidate == u32::MAX {
                return None;
            }
            candidate = candidate + 1;
        }
    }

    /// The smallest sector id that no sector uses, if there is one.
    pub fn find_free_sector_id(&self) -> (r: Option<u32>)
        ensures
            match r {
                Some(id) => !self.has_sector(id) && forall|j: u32| j < id ==> self.has_sector(j),
                None => forall|j: u32| self.has_sector(j),
            },
    {
        let mut candidate: u32 = 0;
        loop
            invariant
                forall|j: u32| j < candidate ==> self.has_sector(j),
            decreases u32::MAX - candidate,
        {
            if self.sector_index(candidate).is_none() {
                return Some(candidate);
            }
            if candidate == u32::MAX {
                return None;
            }
            candidate = candidate + 1;
        }
    }

    /// Whether any geometry is selected.
    pub fn has_selection(&self) -> (r: bool)
        ensures
            r == (self.selected_vertices@.len() > 0 || self.selected_linedefs@.len() > 0
                || self.selected_sectors@.len() > 0),
    {
        !self.selected_vertices.is_empty() || !self.selected_linedefs.is_empty()
            || !self.selected_sectors.is_empty()
    }

    /// Whether the map has no geometry.
    pub fn is_empty(&self) -> (r: bool)
        ensures
            r == (self.vertices@.len() == 0 && self.linedefs@.len() == 0 && self.sectors@.len()
                == 0),
    {
        self.vertices.is_empty() && self.linedefs.is_empty() && self.sectors.is_empty()
    }

    /// Whether some sector is bounded by the given linedef.
    pub fn is_linedef_in_closed_polygon(&self, linedef_id: u32) -> (r: bool)
        ensures
            r == exists|i: int|
                0 <= i < self.sectors@.len() && #[trigger] self.sectors@[i].linedefs@.contains(
                    linedef_id,
                ),
    {
        let mut i: usize = 0;
        while i < self.sectors.len()
            invariant
                i <= self.sectors.len(),
                forall|k: int| 0 <= k < i ==> !(#[trigger] self.sectors@[k].linedefs@.contains(linedef_id)),
            decreases self.sectors.len() - i,
        {
            if crate::util::contains_u32(&self.sectors[i].linedefs, linedef_id) {
                return true;
            }
            i += 1;
        }
        false
    }

    /// Whether some layered (rect tool) sector is bounded by the given linedef.
    pub fn is_linedef_in_rect(&self, linedef_id: u32) -> (r: bool)
        ensures
            r == exists|i: int|
                0 <= i < self.sectors@.len() && #[trigger] self.sectors@[i].layer is Some
                    && self.sectors@[i].linedefs@.contains(linedef_id),
    {
        let mut i: usize = 0;
        while i < self.sectors.len()
            invariant
                i <= self.sectors.len(),
                forall|k: int|
                    0 <= k < i ==> !(#[trigger] self.sectors@[k].layer is Some
                        && self.sectors@[k].linedefs@.contains(linedef_id)),
            decreases self.sectors.len() - i,
        {
            if self.sectors[i].layer.is_some() && crate::util::contains_u32(
                &self.sectors[i].linedefs,
                linedef_id,
            ) {
                return true;
            }
            i += 1;
        }
        false
    }

    /// Whether the first linedef with this id bounds a sector on both sides.
    pub fn is_linedef_passable(&self, linedef_id: u32) -> (r: bool)
        ensures
            r == linedef_passable(self.linedefs@, linedef_id),
    {
        match self.linedef_index(linedef_id) {
            Some(i) => self.linedefs[i].front_sector.is_some()
                && self.linedefs[i].back_sector.is_some(),
            None => false,
        }
    }

    /// The sector reached from `sector_id` through the given linedef, if any.
    fn neighbor_via(&self, sector_id: u32, linedef_id: u32) -> (r: Option<u32>)
        ensures
            r == neighbor_through(self.linedefs@, sector_id, linedef_id),
    {
        match self.linedef_index(linedef_id) {
            Some(i) => {
                let l = &self.linedefs[i];
                if l.front_sector.is_some() && l.back_sector.is_some() {
                    match l.front_sector {
                        Some(f) if f != sector_id => Some(f),
                        _ => match l.back_sector {
                            Some(b) if b != sector_id => Some(b),
                            _ => None,
                        },
                    }
                } else {
                    None
                }
            },
            None => None,
        }
    }

    /// The ids of the sectors reachable from the first sector with `sector_id`
    /// through its passable linedefs, in the order of its linedef list
    /// (empty when there is no such sector). Each step costs the same.
    pub fn get_neighbors(&self, sector_id: u32) -> (r: Vec<u32>)
        ensures
            r@ == ({
                let i = first_id_index(sector_ids(self.sectors@), sector_id);
                if i >= 0 {
                    self.sectors@[i].linedefs@.filter_map(
                        |lid: u32| neighbor_through(self.linedefs@, sector_id, lid),
                    )
                } else {
                    Seq::<u32>::empty()
                }
            }),
    {
        let mut out: Vec<u32> = Vec::new();
        match self.sector_index(sector_id) {
            Some(si) => {
                let lids = &self.sectors[si].linedefs;
                let ghost f = |lid: u32| neighbor_through(self.linedefs@, sector_id, lid);
                let mut k: usize = 0;
                while k < lids.len()
                    invariant
                        k <= lids.len(),
                        out@ == lids@.take(k as int).filter_map(f),
                        f == (|lid: u32| neighbor_through(self.linedefs@, sector_id, lid)),
                    decreases lids.len() - k,
                {
                    proof {
                        lids@.lemma_filter_map_take_succ(f, k as int);
                    }
                    match self.neighbor_via(sector_id, lids[k]) {
                        Some(n) => out.push(n),
                        None => {},
                    }
                    k += 1;
                }
                assert(lids@.take(lids@.len() as int) == lids@);
                out
            },
            None => out,
        }
    }

    /// The first linedef that is passable and joins the two sectors, in either direction.
    pub fn get_connecting_linedef(&self, current_sector_id: u32, next_sector_id: u32) -> (r: Option<u32>)
        ensures
            match r {
                Some(id) => exists|i: int|
                    0 <= i < self.linedefs@.len() && self.linedefs@[i].id == id && connects(
                        self.linedefs@,
                        i,
                        current_sector_id,
                        next_sector_id,
                    ) && forall|j: int|
                        0 <= j < i ==> !connects(self.linedefs@, j, current_sector_id, next_sector_id),
                None => forall|j: int|
                    0 <= j < self.linedefs@.len() ==> !connects(
                        self.linedefs@,
                        j,
                        current_sector_id,
                        next_sector_id,
                    ),
            },
    {
        let mut i: usize = 0;
        while i < self.linedefs.len()
            invariant
                i <= self.linedefs.len(),
                forall|j: int|
                    0 <= j < i ==> !connects(self.linedefs@, j, current_sector_id, next_sector_id),
            decreases self.linedefs.len() - i,
        {
            let l = &self.linedefs[i];
            if self.is_linedef_passable(l.id) {
                if (l.front_sector == Some(current_sector_id) && l.back_sector == Some(next_sector_id))
                    || (l.back_sector == Some(current_sector_id) && l.front_sector == Some(
                    next_sector_id,
                )) {
                    assert(connects(self.linedefs@, i as int, current_sector_id, next_sector_id));
                    return Some(l.id);
                }
            }
            i += 1;
        }
        None
    }

    /// Adds each given id to the matching selection list unless it is already there.
    pub fn add_to_selection(&mut self, vertices: Vec<u32>, linedefs: Vec<u32>, sectors: Vec<u32>)
        ensures
            final(self).selected_vertices@ == add_unique(old(self).selected_vertices@, vertices@),
            final(self).selected_linedefs@ == add_unique(old(self).selected_linedefs@, linedefs@),
            final(self).selected_sectors@ == add_unique(old(self).selected_sectors@, sectors@),
            final(self).vertices == old(self).vertices,
            final(self).linedefs == old(self).linedefs,
            final(self).sectors == old(self).sectors,
            final(self).possible_polygon == old(self).possible_polygon,
    {
        crate::util::extend_unique(&mut self.selected_vertices, &vertices);
        crate::util::extend_unique(&mut self.selected_linedefs, &linedefs);
        crate::util::extend_unique(&mut self.selected_sectors, &sectors);
    }

    /// Removes every occurrence of each given id from the matching selection list.
    pub fn remove_from_selection(&mut self, vertices: Vec<u32>, linedefs: Vec<u32>, sectors: Vec<u32>)
        ensures
            final(self).selected_vertices@ == remove_all(old(self).selected_vertices@, vertices@),
            final(self).selected_linedefs@ == remove_all(old(self).selected_linedefs@, linedefs@),
            final(self).selected_sectors@ == remove_all(old(self).selected_sectors@, sectors@),
            final(self).vertices == old(self).vertices,
            final(self).linedefs == old(self).linedefs,
            final(self).sectors == old(self).sectors,
            final(self).possible_polygon == old(self).possible_polygon,
    {
        self.selected_vertices = crate::util::retain_not_in(&self.selected_vertices, &vertices);
        self.selected_linedefs = crate::util::retain_not_in(&self.selected_linedefs, &linedefs);
        self.selected_sectors = crate::util::retain_not_in(&self.selected_sectors, &sectors);
    }

    /// The drawn polygon has at least three linedefs and the last one ends
    /// where the first one starts.
    pub open spec fn polygon_closed(self) -> bool {
        let pp = self.possible_polygon@;
        let ids = linedef_ids(self.linedefs@);
        &&& pp.len() >= 3
        &&& ids.contains(pp[0])
        &&& ids.contains(pp.last())
        &&& self.linedefs@[first_id_index(ids, pp.last())].end_vertex
            == self.linedefs@[first_id_index(ids, pp[0])].start_vertex
    }

    /// Checks whether the drawn polygon forms a closed loop.
    pub fn test_for_closed_polygon(&self) -> (r: bool)
        ensures
            r == self.polygon_closed(),
    {
        let n = self.possible_polygon.len();
        if n < 3 {
            return false;
        }
        match self.linedef_index(self.possible_polygon[0]) {
            Some(f) => match self.linedef_index(self.possible_polygon[n - 1]) {
                Some(l) => self.linedefs[l].end_vertex == self.linedefs[f].start_vertex,
                None => false,
            },
            None => false,
        }
    }

    /// The id of the first sector made of the same linedefs as `linedefs`.
    fn find_sector_by_linedefs(&self, linedefs: &Vec<u32>) -> (r: Option<u32>)
        ensures
            match r {
                Some(id) => exists|k: int|
                    0 <= k < self.sectors@.len() && self.sectors@[k].id == id && sector_matches(
                        self.sectors@[k],
                        linedefs@,
                    ),
                None => forall|k: int|
                    0 <= k < self.sectors@.len() ==> !#[trigger] sector_matches(
                        self.sectors@[k],
                        linedefs@,
                    ),
            },
    {
        let mut i: usize = 0;
        while i < self.sectors.len()
            invariant
                i <= self.sectors.len(),
                forall|k: int| 0 <= k < i ==> !#[trigger] sector_matches(self.sectors@[k], linedefs@),
            decreases self.sectors.len() - i,
        {
            let s = &self.sectors[i];
            if s.linedefs.len() == linedefs.len() {
                let mut all = true;
                let mut k: usize = 0;
                while k < s.linedefs.len()
                    invariant
                        k <= s.linedefs.len(),
                        all ==> forall|q: int| 0 <= q < k ==> linedefs@.contains(#[trigger] s.linedefs@[q]),
                        !all ==> !sector_matches(*s, linedefs@),
                    decreases s.linedefs.len() - k,
                {
                    if !crate::util::contains_u32(linedefs, s.linedefs[k]) {
                        all = false;
                    }
                    k += 1;
                }
                if all {
                    return Some(s.id);
                }
            }
            i += 1;
        }
        None
    }

    /// Gives sector `sid` to linedef `id` (its first occurrence): as front
    /// sector when it has none, else as back sector when it has none.
    fn assign_sector_to_linedef(&mut self, id: u32, sid: u32)
        ensures
            final(self).linedefs@ == assign_one(old(self).linedefs@, id, sid),
            final(self).vertices == old(self).vertices,
            final(self).sectors == old(self).sectors,
            final(self).possible_polygon == old(self).possible_polygon,
            same_settings(*old(self), *final(self)),
    {
        match self.linedef_index(id) {
            Some(i) => {
                if self.linedefs[i].front_sector.is_none() {
                    self.linedefs[i].front_sector = Some(sid);
                } else if self.linedefs[i].back_sector.is_none() {
                    self.linedefs[i].back_sector = Some(sid);
                }
            },
            None => {},
        }
    }

    /// Turns the drawn polygon into a new sector if it is closed and no sector
    /// with the same linedefs exists; returns the new sector's id.
    pub fn create_sector_from_polygon(&mut self) -> (r: Option<u32>)
        ensures
            sector_created(*old(self), *final(self), r),
    {
        if !self.test_for_closed_polygon() {
            return None;
        }
        let pp = self.possible_polygon.clone();
        assert(pp@ == self.possible_polygon@);
        if self.find_sector_by_linedefs(&pp).is_some() {
            self.possible_polygon.clear();
            return None;
        }
        match self.find_free_sector_id() {
            Some(sector_id) => {
                let ghost start = self.linedefs@;
                let mut k: usize = 0;
                while k < pp.len()
                    invariant
                        k <= pp.len(),
                        self.linedefs@ == assign_all(start, pp@.take(k as int), sector_id),
                        self.vertices == old(self).vertices,
                        self.sectors == old(self).sectors,
                        self.possible_polygon == old(self).possible_polygon,
                        same_settings(*old(self), *self),
                    decreases pp.len() - k,
                {
                    assert(pp@.take(k + 1).drop_last() == pp@.take(k as int));
                    self.assign_sector_to_linedef(pp[k], sector_id);
                    k += 1;
                }
                assert(pp@.take(pp@.len() as int) == pp@);
                let sector = Sector::new(sector_id, pp);
                self.sectors.push(sector);
                self.possible_polygon.clear();
                assert(self.sectors@.drop_last() =~= old(self).sectors@);
                assert(self.possible_polygon@.len() == 0);
                Some(sector_id)
            },
            None => None,
        }
    }

    /// Adds a linedef between the two vertices under the smallest free linedef
    /// id, appends it to the drawn polygon and closes the polygon into a sector
    /// if possible. Returns the linedef id and the new sector id; `(0, None)`
    /// and no change when every linedef id is taken.
    pub fn create_linedef(&mut self, start_vertex: u32, end_vertex: u32) -> (r: (u32, Option<u32>))
        ensures
            (forall|j: u32| old(self).has_linedef(j)) ==> r == (0u32, None::<u32>) && *final(self)
                == *old(self),
            !(forall|j: u32| old(self).has_linedef(j)) ==> {
                let lid = r.0;
                let n = old(self).linedefs@.len();
                &&& !old(self).has_linedef(lid)
                &&& forall|j: u32| j < lid ==> old(self).has_linedef(j)
                &&& exists|mid: GameMap, fin: GameMap| {
                    &&& same_settings(*old(self), mid)
                    &&& mid.vertices == old(self).vertices
                    &&& mid.sectors == old(self).sectors
                    &&& mid.possible_polygon@ == old(self).possible_polygon@.push(lid)
                    &&& mid.linedefs@.len() == n + 1
                    &&& mid.linedefs@.drop_last() == old(self).linedefs@
                    &&& mid.linedefs@[n as int].id == lid
                    &&& mid.linedefs@[n as int].name@ == Seq::<char>::empty()
                    &&& mid.linedefs@[n as int].start_vertex == start_vertex
                    &&& mid.linedefs@[n as int].end_vertex == end_vertex
                    &&& mid.linedefs@[n as int].front_sector is None
                    &&& mid.linedefs@[n as int].back_sector is None
                    &&& #[trigger] sector_created(mid, fin, r.1)
                    &&& same_settings(fin, *final(self))
                    &&& final(self).vertices == fin.vertices
                    &&& final(self).sectors == fin.sectors
                    &&& final(self).possible_polygon == fin.possible_polygon
                    &&& final(self).linedefs@ == match r.1 {
                        Some(sid) => fin.linedefs@.update(
                            n as int,
                            Linedef { front_sector: Some(sid), ..fin.linedefs@[n as int] },
                        ),
                        None => fin.linedefs@,
                    }
                }
            },
    {
        match self.find_free_linedef_id() {
            Some(id) => {
                let linedef = Linedef::new(id, start_vertex, end_vertex);
                self.linedefs.push(linedef);
                self.possible_polygon.push(id);
                let ghost mid = *self;
                let sector_id = self.create_sector_from_polygon();
                let ghost fin = *self;
                proof {
                    lemma_assign_all_ids(mid.linedefs@, mid.possible_polygon@, 0);
                }
                match sector_id {
                    Some(sid) => {
                        let ghost n = old(self).linedefs@.len();
                        proof {
                            lemma_assign_all_ids(mid.linedefs@, mid.possible_polygon@, sid);
                            let ids = linedef_ids(fin.linedefs@);
                            assert(ids == linedef_ids(mid.linedefs@));
                            assert(ids[ids.len() - 1] == id);
                            lemma_first_id_index(ids, id, ids.len() - 1);
                            assert(!linedef_ids(old(self).linedefs@).contains(id));
                            assert forall|j: int| 0 <= j < ids.len() - 1 implies ids[j] != id by {
                                assert(linedef_ids(old(self).linedefs@)[j] == ids[j]);
                            }
                        }
                        match self.linedef_index(id) {
                            Some(i) => {
                                assert(i == n);
                                self.linedefs[i].front_sector = Some(sid);
                            },
                            None => {},
                        }
                        assert(self.linedefs@ == fin.linedefs@.update(
                            n as int,
                            Linedef { front_sector: Some(sid), ..fin.linedefs@[n as int] },
                        ));
                    },
                    None => {},
                }
                assert(mid.linedefs@.drop_last() =~= old(self).linedefs@);
                let r = (id, sector_id);
                assert(sector_created(mid, fin, r.1));
                r
            },
            None => (0, None),
        }
    }
}

/// Linedef `i` is passable and joins the two sectors, in one direction or the other.
pub open spec fn connects(ls: Seq<Linedef>, i: int, a: u32, b: u32) -> bool {
    &&& linedef_passable(ls, ls[i].id)
    &&& ((ls[i].front_sector == Some(a) && ls[i].back_sector == Some(b)) || (ls[i].back_sector
        == Some(a) && ls[i].front_sector == Some(b)))
}


} // verus!
