use vstd::prelude::*;

verus! {

/// A closed polygon of linedefs. `layer` is set for sectors stacked by the rect tool.
#[derive(Clone, Debug)]
pub struct Sector {
    pub id: u32,
    pub name: String,
    pub linedefs: Vec<u32>,
    pub neighbours: Vec<u32>,
    pub layer: Option<u8>,
}

impl Sector {
    /// Creates an unnamed sector bounded by the given linedefs.
    pub fn new(id: u32, linedefs: Vec<u32>) -> (s: Self)
        ensures
            s.id == id,
            s.name@ == Seq::<char>::empty(),
            s.linedefs@ == linedefs@,
            s.neighbours@ == Seq::<u32>::empty(),
            s.layer is None,
    {
        Sector { id, name: String::new(), linedefs, neighbours: Vec::new(), layer: None }
    }
}

} // verus!
