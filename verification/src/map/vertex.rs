use vstd::prelude::*;

verus! {

/// A map vertex. The position is kept as the raw bit patterns of its `f32`
/// coordinates: the topology code only copies them, and arithmetic on them
/// happens outside the verified core.
#[derive(Clone, Debug)]
pub struct Vertex {
    pub id: u32,
    pub name: String,
    pub x_bits: u32,
    pub y_bits: u32,
    pub z_bits: u32,
}

impl Vertex {
    /// Creates an unnamed vertex with the given id and coordinate bits (z is 0.0).
    pub fn new(id: u32, x_bits: u32, y_bits: u32) -> (v: Self)
        ensures
            v.id == id,
            v.name@ == Seq::<char>::empty(),
            v.x_bits == x_bits,
            v.y_bits == y_bits,
            v.z_bits == 0,
    {
        Vertex { id, name: String::new(), x_bits, y_bits, z_bits: 0 }
    }

    /// Creates an unnamed vertex with the given id and three coordinate bit patterns.
    pub fn new_3d(id: u32, x_bits: u32, y_bits: u32, z_bits: u32) -> (v: Self)
        ensures
            v.id == id,
            v.name@ == Seq::<char>::empty(),
            v.x_bits == x_bits,
            v.y_bits == y_bits,
            v.z_bits == z_bits,
    {
        Vertex { id, name: String::new(), x_bits, y_bits, z_bits }
    }
}

} // verus!
