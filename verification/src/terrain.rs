use vstd::prelude::*;

verus! {

/// The inclusive box `(min_x, min_y)`..=`(max_x, max_y)` of terrain cells.
#[derive(Clone, Copy, Debug, PartialEq, Eq, Structural)]
pub struct CellBounds {
    pub min_x: i32,
    pub min_y: i32,
    pub max_x: i32,
    pub max_y: i32,
}

/// Whether cell `(x, y)` lies in the box.
pub open spec fn in_bounds(b: CellBounds, x: int, y: int) -> bool {
    b.min_x <= x <= b.max_x && b.min_y <= y <= b.max_y
}

/// Whether `b` is the smallest box holding every cell of `keys`: every cell
/// lies in it and each of its four sides touches a cell.
pub open spec fn is_bounding_box(b: CellBounds, keys: Seq<(i32, i32)>) -> bool {
    &&& forall|k: int| 0 <= k < keys.len() ==> in_bounds(b, #[trigger] keys[k].0 as int, keys[k].1 as int)
    &&& exists|k: int| 0 <= k < keys.len() && #[trigger] keys[k].0 == b.min_x
    &&& exists|k: int| 0 <= k < keys.len() && #[trigger] keys[k].1 == b.min_y
    &&& exists|k: int| 0 <= k < keys.len() && #[trigger] keys[k].0 == b.max_x
    &&& exists|k: int| 0 <= k < keys.len() && #[trigger] keys[k].1 == b.max_y
}

/// The box grown just enough to hold cell `(x, y)`; a single-cell box when there was none.
pub open spec fn include_cell(b: Option<CellBounds>, x: i32, y: i32) -> CellBounds {
    match b {
        None => CellBounds { min_x: x, min_y: y, max_x: x, max_y: y },
        Some(b) => CellBounds {
            min_x: if x < b.min_x { x } else { b.min_x },
            min_y: if y < b.min_y { y } else { b.min_y },
            max_x: if x > b.max_x { x } else { b.max_x },
            max_y: if y > b.max_y { y } else { b.max_y },
        },
    }
}

/// The cells of a height list.
pub open spec fn cell_keys(heights: Seq<((i32, i32), u32)>) -> Seq<(i32, i32)> {
    heights.map_values(|h: ((i32, i32), u32)| h.0)
}

/// A heightmap over integer cells. Heights are the bit patterns of `f32`
/// values; a cell without an entry has height `0.0`. `bounds` is the bounding
/// box of the cells that have a height.
#[derive(Clone, Debug)]
pub struct Terrain {
    pub scale_x_bits: u32,
    pub scale_y_bits: u32,
    pub heights: Vec<((i32, i32), u32)>,
    pub bounds: Option<CellBounds>,
}

/// The bit pattern of `1.0f32`.
pub const UNIT_SCALE_BITS: u32 = 0x3f80_0000u32;

/// A set of cells has one bounding box at most.
pub proof fn lemma_bounding_box_unique(b1: CellBounds, b2: CellBounds, keys: Seq<(i32, i32)>)
    requires
        is_bounding_box(b1, keys),
        is_bounding_box(b2, keys),
    ensures
        b1 == b2,
{
    let w1 = choose|k: int| 0 <= k < keys.len() && #[trigger] keys[k].0 == b1.min_x;
    let w2 = choose|k: int| 0 <= k < keys.len() && #[trigger] keys[k].0 == b2.min_x;
    let w3 = choose|k: int| 0 <= k < keys.len() && #[trigger] keys[k].1 == b1.min_y;
    let w4 = choose|k: int| 0 <= k < keys.len() && #[trigger] keys[k].1 == b2.min_y;
    let w5 = choose|k: int| 0 <= k < keys.len() && #[trigger] keys[k].0 == b1.max_x;
    let w6 = choose|k: int| 0 <= k < keys.len() && #[trigger] keys[k].0 == b2.max_x;
    let w7 = choose|k: int| 0 <= k < keys.len() && #[trigger] keys[k].1 == b1.max_y;
    let w8 = choose|k: int| 0 <= k < keys.len() && #[trigger] keys[k].1 == b2.max_y;
    assert(in_bounds(b1, keys[w2].0 as int, keys[w2].1 as int));
    assert(in_bounds(b2, keys[w1].0 as int, keys[w1].1 as int));
    assert(in_bounds(b1, keys[w4].0 as int, keys[w4].1 as int));
    assert(in_bounds(b2, keys[w3].0 as int, keys[w3].1 as int));
    assert(in_bounds(b1, keys[w6].0 as int, keys[w6].1 as int));
    assert(in_bounds(b2, keys[w5].0 as int, keys[w5].1 as int));
    assert(in_bounds(b1, keys[w8].0 as int, keys[w8].1 as int));
    assert(in_bounds(b2, keys[w7].0 as int, keys[w7].1 as int));
}

/// In a list whose cells are distinct, the height of the cell at position `k`
/// is the one stored there.
proof fn lemma_height_at_index(heights: Seq<((i32, i32), u32)>, k: int)
    requires
        0 <= k < heights.len(),
        forall|i: int, j: int|
            0 <= i < j < heights.len() ==> cell_keys(heights)[i] != cell_keys(heights)[j],
    ensures
        Terrain::height_at(heights, heights[k].0.0, heights[k].0.1) == heights[k].1,
{
    let (x, y) = heights[k].0;
    let c = choose|c: int| 0 <= c < heights.len() && heights[c].0 == (x, y);
    assert(heights[k].0 == (x, y));
    if c != k {
        assert(cell_keys(heights)[c] == cell_keys(heights)[k]);
    }
}

impl Terrain {
    /// Each cell appears once, and `bounds` is the bounding box of the cells
    /// (none exactly when there is no cell).
    pub open spec fn well_formed(&self) -> bool {
        let keys = cell_keys(self.heights@);
        &&& forall|i: int, j: int| 0 <= i < j < keys.len() ==> keys[i] != keys[j]
        &&& match self.bounds {
            None => keys.len() == 0,
            Some(b) => keys.len() > 0 && is_bounding_box(b, keys),
        }
    }

    /// The height (as `f32` bits) of cell `(x, y)` in the list, `0` when it has none.
    pub open spec fn height_at(heights: Seq<((i32, i32), u32)>, x: i32, y: i32) -> u32 {
        if exists|k: int| 0 <= k < heights.len() && heights[k].0 == (x, y) {
            heights[choose|k: int| 0 <= k < heights.len() && heights[k].0 == (x, y)].1
        } else {
            0
        }
    }

    /// A terrain without cells, `scale` world units per cell.
    pub fn new(scale_x_bits: u32, scale_y_bits: u32) -> (t: Self)
        ensures
            t.well_formed(),
            t.heights@.len() == 0,
            t.bounds is None,
            t.scale_x_bits == scale_x_bits,
            t.scale_y_bits == scale_y_bits,
    {
        Terrain { scale_x_bits, scale_y_bits, heights: Vec::new(), bounds: None }
    }

    /// A terrain without cells and one world unit per cell.
    pub fn empty() -> (t: Self)
        ensures
            t.well_formed(),
            t.heights@.len() == 0,
            t.bounds is None,
            t.scale_x_bits == UNIT_SCALE_BITS,
            t.scale_y_bits == UNIT_SCALE_BITS,
    {
        Self::new(UNIT_SCALE_BITS, UNIT_SCALE_BITS)
    }

    /// The position of cell `(x, y)` in the height list.
    fn cell_index(&self, x: i32, y: i32) -> (r: Option<usize>)
        requires
            self.well_formed(),
        ensures
            match r {
                Some(k) => k < self.heights@.len() && self.heights@[k as int].0 == (x, y),
                None => forall|k: int|
                    0 <= k < self.heights@.len() ==> #[trigger] self.heights@[k].0 != (x, y),
            },
    {
        let mut k: usize = 0;
        while k < self.heights.len()
            invariant
                k <= self.heights@.len(),
                forall|j: int| 0 <= j < k ==> #[trigger] self.heights@[j].0 != (x, y),
            decreases self.heights@.len() - k,
        {
            let (cx, cy) = self.heights[k].0;
            if cx == x && cy == y {
                return Some(k);
            }
            k += 1;
        }
        None
    }

    /// The height (as `f32` bits) of cell `(x, y)`; `0` (the bits of `0.0`) when it has none.
    pub fn get_height(&self, x: i32, y: i32) -> (h: u32)
        requires
            self.well_formed(),
        ensures
            h == Self::height_at(self.heights@, x, y),
    {
        match self.cell_index(x, y) {
            Some(k) => {
                proof {
                    let c = choose|c: int| 0 <= c < self.heights@.len() && self.heights@[c].0 == (x, y);
                    assert(cell_keys(self.heights@)[c] == cell_keys(self.heights@)[k as int]);
                }
                self.heights[k].1
            },
            None => 0,
        }
    }

    /// Sets the height of cell `(x, y)` and grows the bounds to hold the cell.
    pub fn set_height(&mut self, x: i32, y: i32, value_bits: u32)
        requires
            old(self).well_formed(),
        ensures
            final(self).well_formed(),
            final(self).bounds == Some(include_cell(old(self).bounds, x, y)),
            Self::height_at(final(self).heights@, x, y) == value_bits,
            forall|a: i32, b: i32|
                (a, b) != (x, y) ==> Self::height_at(final(self).heights@, a, b) == Self::height_at(
                    old(self).heights@,
                    a,
                    b,
                ),
            cell_keys(final(self).heights@).to_set() == cell_keys(old(self).heights@).to_set().insert(
                (x, y),
            ),
            final(self).scale_x_bits == old(self).scale_x_bits,
            final(self).scale_y_bits == old(self).scale_y_bits,
    {
        let ghost old_heights = self.heights@;
        let ghost old_keys = cell_keys(old_heights);
        let ghost mut kx: int = 0;
        match self.cell_index(x, y) {
            Some(k) => {
                self.heights.set(k, ((x, y), value_bits));
                proof {
                    kx = k as int;
                    assert(old_keys[kx] == (x, y));
                    assert(cell_keys(self.heights@) =~= old_keys);
                }
            },
            None => {
                self.heights.push(((x, y), value_bits));
                proof {
                    kx = old_keys.len() as int;
                    assert(cell_keys(self.heights@) =~= old_keys.push((x, y)));
                    assert forall|k: int| 0 <= k < old_keys.len() implies #[trigger] old_keys[k] != (x, y) by {
                        assert(old_heights[k].0 != (x, y));
                    }
                }
            },
        }
        let ghost keys = cell_keys(self.heights@);
        let nb = match self.bounds {
            None => CellBounds { min_x: x, min_y: y, max_x: x, max_y: y },
            Some(b) => {
                let mut nb = b;
                if x < nb.min_x {
                    nb.min_x = x;
                }
                if y < nb.min_y {
                    nb.min_y = y;
                }
                if x > nb.max_x {
                    nb.max_x = x;
                }
                if y > nb.max_y {
                    nb.max_y = y;
                }
                nb
            },
        };
        self.bounds = Some(nb);
        proof {
            assert(0 <= kx < keys.len() && keys[kx] == (x, y));
            assert(kx < old_keys.len() ==> old_keys[kx] == (x, y));
            assert forall|k: int| 0 <= k < old_keys.len() implies #[trigger] keys[k] == old_keys[k] by {}
            assert(is_bounding_box(nb, keys)) by {
                assert forall|k: int| 0 <= k < keys.len() implies in_bounds(
                    nb,
                    #[trigger] keys[k].0 as int,
                    keys[k].1 as int,
                ) by {
                    if k != kx {
                        assert(k < old_keys.len());
                        assert(old_keys[k] == keys[k]);
                    }
                }
                match old(self).bounds {
                    None => {
                        assert(keys[kx].0 == nb.min_x);
                        assert(keys[kx].1 == nb.min_y);
                        assert(keys[kx].0 == nb.max_x);
                        assert(keys[kx].1 == nb.max_y);
                    },
                    Some(b) => {
                        if x < b.min_x {
                            assert(keys[kx].0 == nb.min_x);
                        } else {
                            let w = choose|k: int| 0 <= k < old_keys.len() && #[trigger] old_keys[k].0 == b.min_x;
                            assert(keys[w].0 == nb.min_x);
                        }
                        if y < b.min_y {
                            assert(keys[kx].1 == nb.min_y);
                        } else {
                            let w = choose|k: int| 0 <= k < old_keys.len() && #[trigger] old_keys[k].1 == b.min_y;
                            assert(keys[w].1 == nb.min_y);
                        }
                        if x > b.max_x {
                            assert(keys[kx].0 == nb.max_x);
                        } else {
                            let w = choose|k: int| 0 <= k < old_keys.len() && #[trigger] old_keys[k].0 == b.max_x;
                            assert(keys[w].0 == nb.max_x);
                        }
                        if y > b.max_y {
                            assert(keys[kx].1 == nb.max_y);
                        } else {
                            let w = choose|k: int| 0 <= k < old_keys.len() && #[trigger] old_keys[k].1 == b.max_y;
                            assert(keys[w].1 == nb.max_y);
                        }
                    },
                }
            }
            assert(self.heights@[kx] == ((x, y), value_bits));
            lemma_height_at_index(self.heights@, kx);
            assert forall|a: i32, b: i32| (a, b) != (x, y) implies Self::height_at(self.heights@, a, b)
                == Self::height_at(old_heights, a, b) by {
                if exists|k: int| 0 <= k < old_heights.len() && old_heights[k].0 == (a, b) {
                    let c = choose|k: int| 0 <= k < old_heights.len() && old_heights[k].0 == (a, b);
                    assert(self.heights@[c] == old_heights[c]);
                    lemma_height_at_index(old_heights, c);
                    lemma_height_at_index(self.heights@, c);
                } else {
                    assert forall|k: int| 0 <= k < self.heights@.len() implies self.heights@[k].0 != (a, b) by {
                        if k != kx {
                            assert(self.heights@[k] == old_heights[k]);
                        }
                    }
                }
            }
            assert(keys.to_set() =~= old_keys.to_set().insert((x, y))) by {
                assert forall|c: (i32, i32)| keys.contains(c) implies old_keys.to_set().insert(
                    (x, y),
                ).contains(c) by {
                    let k = choose|k: int| 0 <= k < keys.len() && keys[k] == c;
                    if k != kx {
                        assert(old_keys[k] == c);
                    }
                }
                assert forall|c: (i32, i32)| old_keys.to_set().insert((x, y)).contains(c) implies keys.contains(
                    c,
                ) by {
                    if c == (x, y) {
                        assert(keys[kx] == c);
                    } else {
                        let k = choose|k: int| 0 <= k < old_keys.len() && old_keys[k] == c;
                        assert(keys[k] == c);
                    }
                }
            }
        }
    }

    /// Recomputes the bounds from the cells: their bounding box, or none when
    /// there is no cell. On a well-formed terrain this changes nothing.
    pub fn recompute_bounds(&mut self)
        ensures
            final(self).heights == old(self).heights,
            final(self).scale_x_bits == old(self).scale_x_bits,
            final(self).scale_y_bits == old(self).scale_y_bits,
            match final(self).bounds {
                None => old(self).heights@.len() == 0,
                Some(b) => old(self).heights@.len() > 0 && is_bounding_box(b, cell_keys(old(self).heights@)),
            },
            old(self).well_formed() ==> final(self).bounds == old(self).bounds,
            (forall|i: int, j: int|
                0 <= i < j < cell_keys(old(self).heights@).len() ==> cell_keys(old(self).heights@)[i]
                    != cell_keys(old(self).heights@)[j]) ==> final(self).well_formed(),
    {
        let ghost keys = cell_keys(self.heights@);
        if self.heights.len() == 0 {
            self.bounds = None;
        } else {
            let mut b = CellBounds { min_x: i32::MAX, min_y: i32::MAX, max_x: i32::MIN, max_y: i32::MIN };
            let mut k: usize = 0;
            while k < self.heights.len()
                invariant
                    keys == cell_keys(self.heights@),
                    k <= keys.len(),
                    forall|j: int| 0 <= j < k ==> in_bounds(b, #[trigger] keys[j].0 as int, keys[j].1 as int),
                    k == 0 ==> b.min_x == i32::MAX && b.min_y == i32::MAX && b.max_x == i32::MIN && b.max_y == i32::MIN,
                    k > 0 ==> exists|j: int| 0 <= j < k && #[trigger] keys[j].0 == b.min_x,
                    k > 0 ==> exists|j: int| 0 <= j < k && #[trigger] keys[j].1 == b.min_y,
                    k > 0 ==> exists|j: int| 0 <= j < k && #[trigger] keys[j].0 == b.max_x,
                    k > 0 ==> exists|j: int| 0 <= j < k && #[trigger] keys[j].1 == b.max_y,
                decreases keys.len() - k,
            {
                let (x, y) = self.heights[k].0;
                assert(keys[k as int] == (x, y));
                if x < b.min_x {
                    b.min_x = x;
                }
                if y < b.min_y {
                    b.min_y = y;
                }
                if x > b.max_x {
                    b.max_x = x;
                }
                if y > b.max_y {
                    b.max_y = y;
                }
                k += 1;
            }
            self.bounds = Some(b);
        }
        proof {
            if old(self).well_formed() {
                match (self.bounds, old(self).bounds) {
                    (Some(b1), Some(b2)) => {
                        lemma_bounding_box_unique(b1, b2, keys);
                    },
                    _ => {},
                }
            }
        }
    }

    /// The size of the vertex grid of the smooth mesh with `subdiv` steps per
    /// cell: `subdiv` times the extent of the bounds along each axis, or none
    /// when the terrain has no cell.
    pub fn bilinear_grid(&self, subdiv: u32) -> (r: Option<(u32, u32)>)
        requires
            self.well_formed(),
            self.bounds matches Some(b) ==> {
                &&& b.max_x - b.min_x <= i32::MAX
                &&& b.max_y - b.min_y <= i32::MAX
                &&& (b.max_x - b.min_x) * subdiv <= u32::MAX
                &&& (b.max_y - b.min_y) * subdiv <= u32::MAX
            },
        ensures
            match self.bounds {
                None => r is None,
                Some(b) => r == Some(
                    (
                        ((b.max_x - b.min_x) * subdiv) as u32,
                        ((b.max_y - b.min_y) * subdiv) as u32,
                    ),
                ),
            },
    {
        match self.bounds {
            None => None,
            Some(b) => {
                proof {
                    let w = choose|k: int| 0 <= k < cell_keys(self.heights@).len() && #[trigger] cell_keys(self.heights@)[k].0 == b.min_x;
                    assert(in_bounds(b, cell_keys(self.heights@)[w].0 as int, cell_keys(self.heights@)[w].1 as int));
                    let v = choose|k: int| 0 <= k < cell_keys(self.heights@).len() && #[trigger] cell_keys(self.heights@)[k].1 == b.min_y;
                    assert(in_bounds(b, cell_keys(self.heights@)[v].0 as int, cell_keys(self.heights@)[v].1 as int));
                }
                let width: u32 = (b.max_x - b.min_x) as u32;
                let height: u32 = (b.max_y - b.min_y) as u32;
                Some((width * subdiv, height * subdiv))
            },
        }
    }
}


/// Triangle `t` of the smooth mesh over a vertex grid `vx + 1` vertices wide:
/// each grid square `q` (row `q / vx`, column `q % vx`) gives triangles `2q`
/// and `2q + 1`, which share the diagonal from its top right to its bottom left.
pub open spec fn grid_triangle(vx: int, t: int) -> (int, int, int) {
    let q = t / 2;
    let cols = vx + 1;
    let i0 = (q / vx) * cols + q % vx;
    if t % 2 == 0 {
        (i0, i0 + cols, i0 + 1)
    } else {
        (i0 + 1, i0 + cols, i0 + cols + 1)
    }
}

/// A triangle of vertex indices as mathematical integers.
pub open spec fn int_triangle(t: (usize, usize, usize)) -> (int, int, int) {
    (t.0 as int, t.1 as int, t.2 as int)
}

proof fn lemma_grid_square(vx: int, y: int, x: int)
    requires
        0 <= x < vx,
        0 <= y,
    ensures
        grid_triangle(vx, 2 * (y * vx + x)) == ((y * (vx + 1) + x), (y * (vx + 1) + x) + (vx + 1), (y * (
            vx + 1) + x) + 1),
        grid_triangle(vx, 2 * (y * vx + x) + 1) == ((y * (vx + 1) + x) + 1, (y * (vx + 1) + x) + (vx
            + 1), (y * (vx + 1) + x) + (vx + 1) + 1),
{
    let q = y * vx + x;
    vstd::arithmetic::div_mod::lemma_fundamental_div_mod_converse(q, vx, y, x);
    vstd::arithmetic::div_mod::lemma_fundamental_div_mod_converse(2 * q, 2, q, 0);
    vstd::arithmetic::div_mod::lemma_fundamental_div_mod_converse(2 * q + 1, 2, q, 1);
}

/// The triangles of the smooth terrain mesh over a grid of `(vx + 1) x (vy + 1)`
/// vertices numbered row by row: two per grid square, squares row by row.
pub fn grid_triangles(vx: u32, vy: u32) -> (tris: Vec<(usize, usize, usize)>)
    requires
        vx < u32::MAX,
        vx == 0 || vy == 0 || vy * (vx + 1) <= u32::MAX + 2,
        (vx + 1) * (vy + 1) <= usize::MAX,
    ensures
        tris@.len() == 2 * vx * vy,
        forall|t: int| 0 <= t < tris@.len() ==> int_triangle(#[trigger] tris@[t]) == grid_triangle(vx as int, t),
        forall|t: int| 0 <= t < tris@.len() ==> {
            let tri = #[trigger] tris@[t];
            &&& tri.0 < (vx + 1) * (vy + 1)
            &&& tri.1 < (vx + 1) * (vy + 1)
            &&& tri.2 < (vx + 1) * (vy + 1)
        },
{
    let columns: u32 = vx + 1;
    let mut tris: Vec<(usize, usize, usize)> = Vec::new();
    let mut y: u32 = 0;
    while y < vy
        invariant
            columns == vx + 1,
            vx < u32::MAX,
            vx == 0 || vy == 0 || vy * (vx + 1) <= u32::MAX + 2,
            (vx + 1) * (vy + 1) <= usize::MAX,
            y <= vy,
            tris@.len() == 2 * (y * vx),
            forall|t: int| 0 <= t < tris@.len() ==> int_triangle(#[trigger] tris@[t]) == grid_triangle(vx as int, t),
            forall|t: int| 0 <= t < tris@.len() ==> {
                let tri = #[trigger] tris@[t];
                &&& tri.0 < (vx + 1) * (vy + 1)
                &&& tri.1 < (vx + 1) * (vy + 1)
                &&& tri.2 < (vx + 1) * (vy + 1)
            },
        decreases vy - y,
    {
        let mut x: u32 = 0;
        while x < vx
            invariant
                columns == vx + 1,
                vx < u32::MAX,
                vx == 0 || vy == 0 || vy * (vx + 1) <= u32::MAX + 2,
                (vx + 1) * (vy + 1) <= usize::MAX,
                y < vy,
                x <= vx,
                tris@.len() == 2 * (y * vx + x),
                forall|t: int| 0 <= t < tris@.len() ==> int_triangle(#[trigger] tris@[t]) == grid_triangle(vx as int, t),
                forall|t: int| 0 <= t < tris@.len() ==> {
                    let tri = #[trigger] tris@[t];
                    &&& tri.0 < (vx + 1) * (vy + 1)
                    &&& tri.1 < (vx + 1) * (vy + 1)
                    &&& tri.2 < (vx + 1) * (vy + 1)
                },
            decreases vx - x,
        {
            proof {
                assert(y * (vx + 1) + x + 1 <= vy * (vx + 1) - 1) by (nonlinear_arith)
                    requires
                        0 <= y < vy,
                        0 <= x < vx,
                ;
                assert(vy * (vx + 1) + vx + 1 == (vx + 1) * (vy + 1)) by (nonlinear_arith);
                lemma_grid_square(vx as int, y as int, x as int);
            }
            let i0: usize = (y * columns + x) as usize;
            let i1: usize = i0 + 1;
            let i2: usize = i0 + columns as usize;
            let i3: usize = i2 + 1;
            tris.push((i0, i2, i1));
            tris.push((i1, i2, i3));
            x = x + 1;
        }
        proof {
            assert((y + 1) * vx == y * vx + vx) by (nonlinear_arith);
        }
        y = y + 1;
    }
    proof {
        assert(2 * (vy * vx) == 2 * vx * vy) by (nonlinear_arith);
    }
    tris
}


/// The four corners of cell `c`: `(x, y)`, `(x + 1, y)`, `(x, y + 1)`, `(x + 1, y + 1)`.
pub open spec fn corners_of(c: (i32, i32)) -> Seq<(int, int)> {
    seq![(c.0 as int, c.1 as int), (c.0 + 1, c.1 as int), (c.0 as int, c.1 + 1), (c.0 + 1, c.1 + 1)]
}

/// `acc` extended by each point of `pts` that it does not hold yet, in order.
pub open spec fn add_new_points(acc: Seq<(int, int)>, pts: Seq<(int, int)>) -> Seq<(int, int)>
    decreases pts.len(),
{
    if pts.len() == 0 {
        acc
    } else {
        let prev = add_new_points(acc, pts.drop_last());
        if prev.contains(pts.last()) {
            prev
        } else {
            prev.push(pts.last())
        }
    }
}

/// The mesh vertices of the cells: their corners, each once, in the order
/// in which the cells first use them.
pub open spec fn mesh_corners(cells: Seq<(i32, i32)>) -> Seq<(int, int)>
    decreases cells.len(),
{
    if cells.len() == 0 {
        Seq::empty()
    } else {
        add_new_points(mesh_corners(cells.drop_last()), corners_of(cells.last()))
    }
}

/// The position of point `p` in `pts` (-1 when it is missing).
pub open spec fn point_index(pts: Seq<(int, int)>, p: (int, int)) -> int {
    if pts.contains(p) {
        choose|i: int| 0 <= i < pts.len() && pts[i] == p
    } else {
        -1
    }
}

/// Triangle `t` of the cell mesh: cell `t / 2` gives triangles `(i0, i2, i1)`
/// and `(i1, i2, i3)`, `i0`..`i3` being the positions of its corners
/// `(x, y)`, `(x + 1, y)`, `(x, y + 1)`, `(x + 1, y + 1)` among the mesh vertices.
pub open spec fn mesh_triangle(cells: Seq<(i32, i32)>, t: int) -> (int, int, int) {
    let c = cells[t / 2];
    let vs = mesh_corners(cells);
    let i0 = point_index(vs, (c.0 as int, c.1 as int));
    let i1 = point_index(vs, (c.0 + 1, c.1 as int));
    let i2 = point_index(vs, (c.0 as int, c.1 + 1));
    let i3 = point_index(vs, (c.0 + 1, c.1 + 1));
    if t % 2 == 0 {
        (i0, i2, i1)
    } else {
        (i1, i2, i3)
    }
}

/// Integer points as mathematical pairs.
pub open spec fn int_pairs(v: Seq<(i32, i32)>) -> Seq<(int, int)> {
    v.map_values(|p: (i32, i32)| (p.0 as int, p.1 as int))
}

proof fn lemma_add_new_points(acc: Seq<(int, int)>, pts: Seq<(int, int)>)
    ensures
        acc.no_duplicates() ==> add_new_points(acc, pts).no_duplicates(),
        forall|p: (int, int)| #[trigger] add_new_points(acc, pts).contains(p) <==> acc.contains(p) || pts.contains(p),
        acc.len() <= add_new_points(acc, pts).len(),
        add_new_points(acc, pts).take(acc.len() as int) == acc,
    decreases pts.len(),
{
    if pts.len() > 0 {
        lemma_add_new_points(acc, pts.drop_last());
        let prev = add_new_points(acc, pts.drop_last());
        assert forall|p: (int, int)| pts.contains(p) <==> pts.drop_last().contains(p) || p == pts.last() by {
            if pts.contains(p) {
                let k = choose|k: int| 0 <= k < pts.len() && pts[k] == p;
                if k < pts.len() - 1 {
                    assert(pts.drop_last()[k] == p);
                }
            }
            if pts.drop_last().contains(p) {
                let k = choose|k: int| 0 <= k < pts.drop_last().len() && pts.drop_last()[k] == p;
                assert(pts[k] == p);
            }
        }
        if !prev.contains(pts.last()) {
            let next = prev.push(pts.last());
            assert(next.take(acc.len() as int) =~= prev.take(acc.len() as int));
            assert forall|p: (int, int)| next.contains(p) <==> prev.contains(p) || p == pts.last() by {
                if next.contains(p) {
                    let k = choose|k: int| 0 <= k < next.len() && next[k] == p;
                    if k < prev.len() {
                        assert(prev[k] == p);
                    } else {
                        assert(next[k] == pts.last());
                    }
                }
                if prev.contains(p) {
                    let k = choose|k: int| 0 <= k < prev.len() && prev[k] == p;
                    assert(next[k] == p);
                }
                if p == pts.last() {
                    assert(next[prev.len() as int] == p);
                }
            }
        }
    }
}

proof fn lemma_mesh_corners(cells: Seq<(i32, i32)>)
    ensures
        mesh_corners(cells).no_duplicates(),
        forall|k: int, j: int|
            0 <= k < cells.len() && 0 <= j < 4 ==> mesh_corners(cells).contains(#[trigger] corners_of(cells[k])[j]),
    decreases cells.len(),
{
    if cells.len() > 0 {
        lemma_mesh_corners(cells.drop_last());
        let prev = mesh_corners(cells.drop_last());
        lemma_add_new_points(prev, corners_of(cells.last()));
        assert forall|k: int, j: int|
            0 <= k < cells.len() && 0 <= j < 4 implies mesh_corners(cells).contains(#[trigger] corners_of(cells[k])[j]) by {
            if k < cells.len() - 1 {
                assert(cells.drop_last()[k] == cells[k]);
                assert(prev.contains(corners_of(cells.drop_last()[k])[j]));
            } else {
                assert(corners_of(cells.last()).contains(corners_of(cells[k])[j]));
            }
        }
    }
}

/// Later cells only append mesh vertices.
proof fn lemma_mesh_corners_prefix(cells: Seq<(i32, i32)>, k: int)
    requires
        0 <= k <= cells.len(),
    ensures
        mesh_corners(cells).take(mesh_corners(cells.take(k)).len() as int) == mesh_corners(cells.take(k)),
        mesh_corners(cells.take(k)).len() <= mesh_corners(cells).len(),
    decreases cells.len() - k,
{
    if k < cells.len() {
        lemma_mesh_corners_prefix(cells, k + 1);
        let a = mesh_corners(cells.take(k));
        let b = mesh_corners(cells.take(k + 1));
        assert(cells.take(k + 1).drop_last() =~= cells.take(k));
        lemma_add_new_points(a, corners_of(cells.take(k + 1).last()));
        assert(b.take(a.len() as int) == a);
        let f = mesh_corners(cells);
        assert(f.take(a.len() as int) =~= f.take(b.len() as int).take(a.len() as int));
    } else {
        assert(cells.take(k) =~= cells);
        assert(mesh_corners(cells).take(mesh_corners(cells).len() as int) =~= mesh_corners(cells));
    }
}

/// In a list without duplicates, the position of an element is where it stands.
proof fn lemma_point_index(pts: Seq<(int, int)>, i: int)
    requires
        pts.no_duplicates(),
        0 <= i < pts.len(),
    ensures
        point_index(pts, pts[i]) == i,
{
    assert(pts.contains(pts[i]));
    let c = point_index(pts, pts[i]);
    assert(0 <= c < pts.len() && pts[c] == pts[i]);
}

/// The position of `p` in `v`, if it is there.
fn find_point(v: &Vec<(i32, i32)>, x: i32, y: i32) -> (r: Option<usize>)
    ensures
        match r {
            Some(i) => i < v@.len() && v@[i as int] == (x, y),
            None => !v@.contains((x, y)),
        },
{
    let mut i: usize = 0;
    while i < v.len()
        invariant
            i <= v@.len(),
            forall|j: int| 0 <= j < i ==> v@[j] != (x, y),
        decreases v@.len() - i,
    {
        if v[i].0 == x && v[i].1 == y {
            return Some(i);
        }
        i += 1;
    }
    None
}


/// `add_new_points` over four points is four single steps.
proof fn lemma_add_four_points(acc: Seq<(int, int)>, ps: Seq<(int, int)>)
    requires
        ps.len() == 4,
    ensures
        add_new_points(acc, ps) == add_one_point(add_one_point(add_one_point(add_one_point(acc, ps[0]), ps[1]), ps[2]), ps[3]),
{
    let p1 = ps.take(1);
    let p2 = ps.take(2);
    let p3 = ps.take(3);
    assert(p1.drop_last() =~= Seq::<(int, int)>::empty());
    assert(p2.drop_last() =~= p1);
    assert(p3.drop_last() =~= p2);
    assert(ps.drop_last() =~= p3);
    assert(add_new_points(acc, Seq::<(int, int)>::empty()) == acc);
    assert(add_new_points(acc, p1) == add_one_point(acc, ps[0]));
    assert(add_new_points(acc, p2) == add_one_point(add_new_points(acc, p1), ps[1]));
    assert(add_new_points(acc, p3) == add_one_point(add_new_points(acc, p2), ps[2]));
}

/// `acc` with `p` appended unless it holds it already.
pub open spec fn add_one_point(acc: Seq<(int, int)>, p: (int, int)) -> Seq<(int, int)> {
    if acc.contains(p) {
        acc
    } else {
        acc.push(p)
    }
}

/// Appends point `(x, y)` unless the list holds it already.
fn add_point(v: &mut Vec<(i32, i32)>, x: i32, y: i32)
    ensures
        int_pairs(final(v)@) == add_one_point(int_pairs(old(v)@), (x as int, y as int)),
{
    let ghost before = int_pairs(v@);
    match find_point(v, x, y) {
        Some(i) => {
            assert(before[i as int] == (x as int, y as int));
        },
        None => {
            v.push((x, y));
            proof {
                assert(int_pairs(v@) =~= before.push((x as int, y as int)));
                if before.contains((x as int, y as int)) {
                    let j = choose|j: int| 0 <= j < before.len() && before[j] == (x as int, y as int);
                    assert(old(v)@[j] == (x, y));
                }
            }
        },
    }
}

/// The position of point `(x, y)`, which the list holds.
fn index_of_point(v: &Vec<(i32, i32)>, x: i32, y: i32) -> (r: usize)
    requires
        int_pairs(v@).contains((x as int, y as int)),
    ensures
        r < v@.len(),
        v@[r as int] == (x, y),
{
    match find_point(v, x, y) {
        Some(i) => i,
        None => {
            proof {
                let j = choose|j: int| 0 <= j < int_pairs(v@).len() && int_pairs(v@)[j] == (x as int, y as int);
                assert(v@[j] == (x, y));
            }
            0
        },
    }
}

/// The mesh of unit quads over the cells, two triangles per cell: its
/// vertices (the cell corners, each once, in the order the cells first use
/// them) and its triangles (see `mesh_triangle`).
pub fn cell_mesh(cells: &Vec<(i32, i32)>) -> (r: (Vec<(i32, i32)>, Vec<(usize, usize, usize)>))
    requires
        forall|k: int| 0 <= k < cells@.len() ==> (#[trigger] cells@[k]).0 < i32::MAX && cells@[k].1 < i32::MAX,
    ensures
        int_pairs(r.0@) == mesh_corners(cells@),
        r.1@.len() == 2 * cells@.len(),
        forall|t: int| 0 <= t < r.1@.len() ==> int_triangle(#[trigger] r.1@[t]) == mesh_triangle(cells@, t),
{
    let ghost full = mesh_corners(cells@);
    proof {
        lemma_mesh_corners(cells@);
    }
    let mut corners: Vec<(i32, i32)> = Vec::new();
    let mut tris: Vec<(usize, usize, usize)> = Vec::new();
    let mut k: usize = 0;
    proof {
        assert(cells@.take(0) =~= Seq::<(i32, i32)>::empty());
        assert(int_pairs(corners@) =~= Seq::<(int, int)>::empty());
    }
    while k < cells.len()
        invariant
            k <= cells@.len(),
            forall|q: int| 0 <= q < cells@.len() ==> (#[trigger] cells@[q]).0 < i32::MAX && cells@[q].1 < i32::MAX,
            full == mesh_corners(cells@),
            full.no_duplicates(),
            int_pairs(corners@) == mesh_corners(cells@.take(k as int)),
            tris@.len() == 2 * k,
            forall|t: int| 0 <= t < tris@.len() ==> int_triangle(#[trigger] tris@[t]) == mesh_triangle(cells@, t),
        decreases cells@.len() - k,
    {
        let (x, y) = cells[k];
        let ghost before = int_pairs(corners@);
        add_point(&mut corners, x, y);
        add_point(&mut corners, x + 1, y);
        add_point(&mut corners, x, y + 1);
        add_point(&mut corners, x + 1, y + 1);
        proof {
            assert(cells@.take(k + 1).drop_last() =~= cells@.take(k as int));
            assert(cells@.take(k + 1).last() == cells@[k as int]);
            let cs = corners_of(cells@[k as int]);
            lemma_add_four_points(before, cs);
            assert(int_pairs(corners@) == mesh_corners(cells@.take(k + 1)));
            lemma_add_new_points(before, cs);
            assert(cs[0] == (x as int, y as int) && cs[1] == (x + 1, y as int) && cs[2] == (x as int, y + 1) && cs[3] == (x + 1, y + 1));
            assert(cs.contains(cs[0]) && cs.contains(cs[1]) && cs.contains(cs[2]) && cs.contains(cs[3]));
            lemma_mesh_corners_prefix(cells@, k + 1);
        }
        let i0 = index_of_point(&corners, x, y);
        let i1 = index_of_point(&corners, x + 1, y);
        let i2 = index_of_point(&corners, x, y + 1);
        let i3 = index_of_point(&corners, x + 1, y + 1);
        proof {
            let cur = int_pairs(corners@);
            assert(full.take(cur.len() as int) == cur);
            assert(full[i0 as int] == cur[i0 as int]);
            assert(full[i1 as int] == cur[i1 as int]);
            assert(full[i2 as int] == cur[i2 as int]);
            assert(full[i3 as int] == cur[i3 as int]);
            lemma_point_index(full, i0 as int);
            lemma_point_index(full, i1 as int);
            lemma_point_index(full, i2 as int);
            lemma_point_index(full, i3 as int);
            let t0 = 2 * k as int;
            assert(t0 / 2 == k && t0 % 2 == 0);
            assert((t0 + 1) / 2 == k && (t0 + 1) % 2 == 1);
        }
        tris.push((i0, i2, i1));
        tris.push((i1, i2, i3));
        k += 1;
    }
    proof {
        assert(cells@.take(k as int) =~= cells@);
    }
    (corners, tris)
}


impl Terrain {
    /// The mesh of unit quads over the cells that have a height, in the order
    /// of the height list (see `cell_mesh`); the vertex positions and heights
    /// are looked up by the caller.
    pub fn batch_mesh(&self) -> (r: (Vec<(i32, i32)>, Vec<(usize, usize, usize)>))
        requires
            forall|k: int|
                0 <= k < self.heights@.len() ==> (#[trigger] self.heights@[k]).0.0 < i32::MAX && self.heights@[k].0.1 < i32::MAX,
        ensures
            int_pairs(r.0@) == mesh_corners(cell_keys(self.heights@)),
            r.1@.len() == 2 * self.heights@.len(),
            forall|t: int|
                0 <= t < r.1@.len() ==> int_triangle(#[trigger] r.1@[t]) == mesh_triangle(cell_keys(self.heights@), t),
    {
        let mut keys: Vec<(i32, i32)> = Vec::new();
        let mut k: usize = 0;
        while k < self.heights.len()
            invariant
                k <= self.heights@.len(),
                keys@ == cell_keys(self.heights@).take(k as int),
            decreases self.heights@.len() - k,
        {
            keys.push(self.heights[k].0);
            k += 1;
            assert(keys@ =~= cell_keys(self.heights@).take(k as int));
        }
        assert(keys@ =~= cell_keys(self.heights@));
        cell_mesh(&keys)
    }
}

} // verus!
