use vstd::prelude::*;

verus! {

/// A line between two vertices, optionally bounding a front and a back sector.
#[derive(Clone, Debug)]
pub struct Linedef {
    pub id: u32,
    /// Maps the linedef to the editor object that created it.
    pub creator_id: uuid::Uuid,
    pub name: String,
    pub start_vertex: u32,
    pub end_vertex: u32,
    pub front_sector: Option<u32>,
    pub back_sector: Option<u32>,
}

impl Linedef {
    /// Creates an unnamed linedef between the two vertices, bounding no sector yet.
    pub fn new(id: u32, start_vertex: u32, end_vertex: u32) -> (l: Self)
        ensures
            l.id == id,
            l.name@ == Seq::<char>::empty(),
            l.start_vertex == start_vertex,
            l.end_vertex == end_vertex,
            l.front_sector is None,
            l.back_sector is None,
    {
        Linedef {
            id,
            creator_id: crate::ids::new_uuid(),
            name: String::new(),
            start_vertex,
            end_vertex,
            front_sector: None,
            back_sector: None,
        }
    }
}

} // verus!
