use vstd::prelude::*;

verus! {

/// A chunk is named by the world coordinates of its origin.
pub type ChunkCoord = (i32, i32);

/// No chunk occurs twice in the list.
pub open spec fn distinct_chunks(s: Seq<ChunkCoord>) -> bool {
    forall|i: int, j: int| 0 <= i < j < s.len() ==> s[i] != s[j]
}

/// Whether chunk `c` is in the list.
pub fn has_chunk(v: &Vec<ChunkCoord>, c: ChunkCoord) -> (r: bool)
    ensures
        r == v@.contains(c),
{
    let mut i: usize = 0;
    while i < v.len()
        invariant
            i <= v@.len(),
            forall|j: int| 0 <= j < i ==> v@[j] != c,
        decreases v@.len() - i,
    {
        if v[i].0 == c.0 && v[i].1 == c.1 {
            return true;
        }
        i += 1;
    }
    false
}

/// Adds chunk `c` to a list of distinct chunks unless it is there already.
pub fn insert_chunk(v: &mut Vec<ChunkCoord>, c: ChunkCoord)
    requires
        distinct_chunks(old(v)@),
    ensures
        distinct_chunks(final(v)@),
        final(v)@.to_set() == old(v)@.to_set().insert(c),
        final(v)@ == if old(v)@.contains(c) { old(v)@ } else { old(v)@.push(c) },
{
    if !has_chunk(v, c) {
        let ghost before = v@;
        v.push(c);
        proof {
            assert forall|x: ChunkCoord| v@.contains(x) <==> before.contains(x) || x == c by {
                if v@.contains(x) {
                    let k = choose|k: int| 0 <= k < v@.len() && v@[k] == x;
                    if k < before.len() {
                        assert(before[k] == x);
                    }
                }
                if before.contains(x) {
                    let k = choose|k: int| 0 <= k < before.len() && before[k] == x;
                    assert(v@[k] == x);
                }
                if x == c {
                    assert(v@[before.len() as int] == c);
                }
            }
            assert(v@.to_set() =~= before.to_set().insert(c));
        }
    } else {
        assert(v@.to_set() =~= v@.to_set().insert(c));
    }
}

/// Adds each chunk of `add` to a list of distinct chunks.
pub fn insert_chunks(v: &mut Vec<ChunkCoord>, add: &Vec<ChunkCoord>)
    requires
        distinct_chunks(old(v)@),
    ensures
        distinct_chunks(final(v)@),
        final(v)@.to_set() == old(v)@.to_set().union(add@.to_set()),
{
    let mut k: usize = 0;
    while k < add.len()
        invariant
            k <= add@.len(),
            distinct_chunks(v@),
            v@.to_set() == old(v)@.to_set().union(add@.take(k as int).to_set()),
        decreases add@.len() - k,
    {
        let ghost before = v@;
        insert_chunk(v, add[k]);
        proof {
            let t1 = add@.take(k + 1);
            let t0 = add@.take(k as int);
            assert(t1.to_set() =~= t0.to_set().insert(add@[k as int])) by {
                assert forall|x: ChunkCoord| t1.contains(x) <==> t0.contains(x) || x == add@[k as int] by {
                    if t1.contains(x) {
                        let j = choose|j: int| 0 <= j < t1.len() && #[trigger] t1[j] == x;
                        if j < k {
                            assert(t0[j] == x);
                        }
                    }
                    if t0.contains(x) {
                        let j = choose|j: int| 0 <= j < t0.len() && #[trigger] t0[j] == x;
                        assert(t1[j] == x);
                    }
                    if x == add@[k as int] {
                        assert(t1[k as int] == x);
                    }
                }
            }
            assert(v@.to_set() =~= old(v)@.to_set().union(add@.take(k + 1).to_set()));
        }
        k += 1;
    }
    assert(add@.take(add@.len() as int) =~= add@);
}

/// The chunk origins `(x * chunk_size, y * chunk_size)` of the chunk rows
/// `min_y..max_y` and columns `min_x..max_x`, row by row.
pub open spec fn chunk_grid(min_x: int, min_y: int, max_x: int, max_y: int, chunk_size: int) -> Seq<
    (int, int),
> {
    let cols = if max_x > min_x { max_x - min_x } else { 0 };
    let rows = if max_y > min_y { max_y - min_y } else { 0 };
    Seq::new(
        (rows * cols) as nat,
        |i: int| ((min_x + i % cols) * chunk_size, (min_y + i / cols) * chunk_size),
    )
}

/// Chunk coordinates as mathematical pairs.
pub open spec fn int_chunks(s: Seq<ChunkCoord>) -> Seq<(int, int)> {
    s.map_values(|c: ChunkCoord| (c.0 as int, c.1 as int))
}

proof fn lemma_grid_index(r: int, c: int, cols: int)
    requires
        0 <= r,
        0 <= c < cols,
    ensures
        (r * cols + c) / cols == r,
        (r * cols + c) % cols == c,
{
    vstd::arithmetic::div_mod::lemma_fundamental_div_mod_converse(r * cols + c, cols, r, c);
}

/// The origins of the chunks (of `chunk_size` units) in chunk rows
/// `min_y..max_y` and columns `min_x..max_x`, row by row; none when a range is empty.
pub fn chunk_coords(min_x: i32, min_y: i32, max_x: i32, max_y: i32, chunk_size: i32) -> (r: Vec<
    ChunkCoord,
>)
    requires
        chunk_size > 0,
        min_x < max_x && min_y < max_y ==> {
            &&& i32::MIN <= min_x * chunk_size
            &&& (max_x - 1) * chunk_size <= i32::MAX
            &&& i32::MIN <= min_y * chunk_size
            &&& (max_y - 1) * chunk_size <= i32::MAX
        },
    ensures
        int_chunks(r@) == chunk_grid(
            min_x as int,
            min_y as int,
            max_x as int,
            max_y as int,
            chunk_size as int,
        ),
        distinct_chunks(r@),
{
    let ghost cols: int = if max_x > min_x { max_x - min_x } else { 0 };
    let ghost grid = chunk_grid(min_x as int, min_y as int, max_x as int, max_y as int, chunk_size as int);
    let mut out: Vec<ChunkCoord> = Vec::new();
    if min_x >= max_x || min_y >= max_y {
        assert(int_chunks(out@) =~= grid);
        return out;
    }
    let mut y: i32 = min_y;
    while y < max_y
        invariant
            min_x < max_x,
            min_y < max_y,
            cols == max_x - min_x,
            grid == chunk_grid(min_x as int, min_y as int, max_x as int, max_y as int, chunk_size as int),
            chunk_size > 0,
            i32::MIN <= min_x * chunk_size,
            (max_x - 1) * chunk_size <= i32::MAX,
            i32::MIN <= min_y * chunk_size,
            (max_y - 1) * chunk_size <= i32::MAX,
            min_y <= y <= max_y,
            out@.len() == (y - min_y) * cols,
            int_chunks(out@) == grid.take(out@.len() as int),
            distinct_chunks(out@),
            forall|k: int| 0 <= k < out@.len() ==> #[trigger] out@[k].1 < y * chunk_size,
        decreases max_y - y,
    {
        let mut x: i32 = min_x;
        while x < max_x
            invariant
                min_x < max_x,
                min_y < max_y,
                cols == max_x - min_x,
                grid == chunk_grid(min_x as int, min_y as int, max_x as int, max_y as int, chunk_size as int),
                chunk_size > 0,
                i32::MIN <= min_x * chunk_size,
                (max_x - 1) * chunk_size <= i32::MAX,
                i32::MIN <= min_y * chunk_size,
                (max_y - 1) * chunk_size <= i32::MAX,
                min_y <= y < max_y,
                min_x <= x <= max_x,
                out@.len() == (y - min_y) * cols + (x - min_x),
                int_chunks(out@) == grid.take(out@.len() as int),
                distinct_chunks(out@),
                forall|k: int|
                    0 <= k < out@.len() ==> #[trigger] out@[k].1 < y * chunk_size || (out@[k].1 == y
                        * chunk_size && out@[k].0 < x * chunk_size),
            decreases max_x - x,
        {
            proof {
                assert(min_x * chunk_size <= x * chunk_size <= (max_x - 1) * chunk_size) by (nonlinear_arith)
                    requires
                        min_x <= x <= max_x - 1,
                        chunk_size > 0,
                ;
                assert(min_y * chunk_size <= y * chunk_size <= (max_y - 1) * chunk_size) by (nonlinear_arith)
                    requires
                        min_y <= y <= max_y - 1,
                        chunk_size > 0,
                ;
                assert(x * chunk_size < (x + 1) * chunk_size && y * chunk_size < (y + 1) * chunk_size)
                    by (nonlinear_arith)
                    requires
                        chunk_size > 0,
                ;
                lemma_grid_index(y - min_y, x - min_x, cols);
                assert(0 <= (y - min_y) * cols) by (nonlinear_arith)
                    requires
                        min_y <= y,
                        0 < cols,
                ;
                assert((y - min_y) * cols + (x - min_x) < (max_y - min_y) * cols) by (nonlinear_arith)
                    requires
                        min_y <= y < max_y,
                        0 <= x - min_x < cols,
                ;
            }
            let ghost before = out@;
            out.push((x * chunk_size, y * chunk_size));
            proof {
                assert(int_chunks(out@) =~= grid.take(out@.len() as int));
                assert forall|i: int, j: int| 0 <= i < j < out@.len() implies out@[i] != out@[j] by {
                    if j == before.len() {
                        assert(out@[i] == before[i]);
                        assert(before[i].1 < y * chunk_size || (before[i].1 == y * chunk_size
                            && before[i].0 < x * chunk_size));
                    } else {
                        assert(out@[i] == before[i] && out@[j] == before[j]);
                    }
                }
            }
            x = x + 1;
        }
        proof {
            assert((y + 1 - min_y) * cols == (y - min_y) * cols + cols) by (nonlinear_arith);
            assert(y * chunk_size < (y + 1) * chunk_size) by (nonlinear_arith)
                requires
                    chunk_size > 0,
            ;
        }
        y = y + 1;
    }
    assert(grid.take(out@.len() as int) =~= grid);
    out
}


/// A copy of a chunk list.
pub fn copy_chunks(v: &Vec<ChunkCoord>) -> (r: Vec<ChunkCoord>)
    ensures
        r@ == v@,
{
    let mut r: Vec<ChunkCoord> = Vec::new();
    let mut i: usize = 0;
    while i < v.len()
        invariant
            i <= v@.len(),
            r@ == v@.take(i as int),
        decreases v@.len() - i,
    {
        r.push(v[i]);
        i += 1;
        assert(r@ =~= v@.take(i as int));
    }
    assert(v@.take(v@.len() as int) =~= v@);
    r
}

/// The bookkeeping of the chunk building loop: the chunks still to build, every
/// chunk scheduled since the last reset, the terrain chunks that arrived while
/// terrain modifiers were off, whether they are on, and how many chunks the
/// current map has.
#[derive(Debug)]
pub struct ChunkSchedule {
    pub dirty: Vec<ChunkCoord>,
    pub all: Vec<ChunkCoord>,
    pub modifier_pending: Vec<ChunkCoord>,
    pub terrain_modifiers: bool,
    pub total_chunks: i32,
}

impl ChunkSchedule {
    /// No list holds a chunk twice, and every chunk to build is among the
    /// scheduled chunks.
    pub open spec fn well_formed(&self) -> bool {
        &&& distinct_chunks(self.dirty@)
        &&& distinct_chunks(self.all@)
        &&& distinct_chunks(self.modifier_pending@)
        &&& self.dirty@.to_set().subset_of(self.all@.to_set())
    }

    /// Nothing scheduled, terrain modifiers on.
    pub fn new() -> (s: Self)
        ensures
            s.well_formed(),
            s.dirty@.len() == 0,
            s.all@.len() == 0,
            s.modifier_pending@.len() == 0,
            s.terrain_modifiers,
            s.total_chunks == 0,
    {
        let s = ChunkSchedule {
            dirty: Vec::new(),
            all: Vec::new(),
            modifier_pending: Vec::new(),
            terrain_modifiers: true,
            total_chunks: 0,
        };
        proof {
            assert(s.dirty@.to_set() =~= Set::empty());
            assert(s.all@.to_set() =~= Set::empty());
            assert(s.modifier_pending@.to_set() =~= Set::empty());
        }
        s
    }

    /// Schedules exactly `chunks` (the chunks of the whole map, after the tiles,
    /// the palette or the 2D builder changed): all of them are to be built.
    pub fn reset(&mut self, chunks: Vec<ChunkCoord>)
        requires
            old(self).well_formed(),
            distinct_chunks(chunks@),
        ensures
            final(self).well_formed(),
            final(self).dirty@ == chunks@,
            final(self).all@ == chunks@,
            final(self).modifier_pending == old(self).modifier_pending,
            final(self).terrain_modifiers == old(self).terrain_modifiers,
            final(self).total_chunks == old(self).total_chunks,
    {
        self.dirty = copy_chunks(&chunks);
        self.all = chunks;
    }

    /// Schedules exactly the chunks of a new map and records how many there are.
    pub fn set_map(&mut self, chunks: Vec<ChunkCoord>)
        requires
            old(self).well_formed(),
            distinct_chunks(chunks@),
        ensures
            final(self).well_formed(),
            final(self).dirty@ == chunks@,
            final(self).all@ == chunks@,
            final(self).total_chunks == chunks@.len() as i32,
            final(self).modifier_pending == old(self).modifier_pending,
            final(self).terrain_modifiers == old(self).terrain_modifiers,
    {
        let n = chunks.len();
        self.reset(chunks);
        self.total_chunks = n as i32;
    }

    /// Schedules the given chunks to be built (again).
    pub fn add_dirty(&mut self, chunks: &Vec<ChunkCoord>)
        requires
            old(self).well_formed(),
        ensures
            final(self).well_formed(),
            final(self).dirty@.to_set() == old(self).dirty@.to_set().union(chunks@.to_set()),
            final(self).all@.to_set() == old(self).all@.to_set().union(chunks@.to_set()),
            final(self).modifier_pending == old(self).modifier_pending,
            final(self).terrain_modifiers == old(self).terrain_modifiers,
            final(self).total_chunks == old(self).total_chunks,
    {
        insert_chunks(&mut self.dirty, chunks);
        insert_chunks(&mut self.all, chunks);
    }

    /// Terrain chunks with these origins arrived: they are to be built, and,
    /// while terrain modifiers are off, built again once they are switched on.
    pub fn terrain_chunks_arrived(&mut self, coords: &Vec<ChunkCoord>)
        requires
            old(self).well_formed(),
        ensures
            final(self).well_formed(),
            final(self).dirty@.to_set() == old(self).dirty@.to_set().union(coords@.to_set()),
            final(self).all@.to_set() == old(self).all@.to_set().union(coords@.to_set()),
            final(self).modifier_pending@.to_set() == if old(self).terrain_modifiers {
                old(self).modifier_pending@.to_set()
            } else {
                old(self).modifier_pending@.to_set().union(coords@.to_set())
            },
            final(self).terrain_modifiers == old(self).terrain_modifiers,
            final(self).total_chunks == old(self).total_chunks,
    {
        insert_chunks(&mut self.dirty, coords);
        insert_chunks(&mut self.all, coords);
        if !self.terrain_modifiers {
            insert_chunks(&mut self.modifier_pending, coords);
        }
    }

    /// Switches terrain modifiers; switching them on schedules the chunks that
    /// were built without them. Nothing is left waiting afterwards.
    pub fn set_terrain_modifier_state(&mut self, state: bool)
        requires
            old(self).well_formed(),
        ensures
            final(self).well_formed(),
            final(self).dirty@.to_set() == if state && !old(self).terrain_modifiers {
                old(self).dirty@.to_set().union(old(self).modifier_pending@.to_set())
            } else {
                old(self).dirty@.to_set()
            },
            final(self).all@.to_set() == if state && !old(self).terrain_modifiers {
                old(self).all@.to_set().union(old(self).modifier_pending@.to_set())
            } else {
                old(self).all@.to_set()
            },
            final(self).modifier_pending@.len() == 0,
            final(self).terrain_modifiers == state,
            final(self).total_chunks == old(self).total_chunks,
    {
        if state && !self.terrain_modifiers {
            let pending = copy_chunks(&self.modifier_pending);
            insert_chunks(&mut self.dirty, &pending);
            insert_chunks(&mut self.all, &pending);
        }
        self.terrain_modifiers = state;
        self.modifier_pending = Vec::new();
        proof {
            assert(self.modifier_pending@.to_set() =~= Set::empty());
        }
    }

    /// Takes a chunk to build next, if any is left, and tells whether it was the
    /// last one (then every scheduled chunk's terrain mesh is rebuilt).
    pub fn next_chunk(&mut self) -> (r: Option<(ChunkCoord, bool)>)
        requires
            old(self).well_formed(),
        ensures
            final(self).well_formed(),
            old(self).dirty@.len() == 0 <==> r is None,
            r matches Some((c, last)) ==> {
                &&& old(self).dirty@.contains(c)
                &&& final(self).dirty@.to_set() == old(self).dirty@.to_set().remove(c)
                &&& last == (final(self).dirty@.len() == 0)
            },
            r is None ==> final(self).dirty@ == old(self).dirty@,
            final(self).all == old(self).all,
            final(self).modifier_pending == old(self).modifier_pending,
            final(self).terrain_modifiers == old(self).terrain_modifiers,
            final(self).total_chunks == old(self).total_chunks,
    {
        match self.dirty.pop() {
            None => None,
            Some(c) => {
                proof {
                    let before = old(self).dirty@;
                    assert(before == self.dirty@.push(c));
                    assert(before[before.len() - 1] == c);
                    assert forall|x: ChunkCoord| self.dirty@.contains(x) <==> before.contains(x) && x != c by {
                        if self.dirty@.contains(x) {
                            let k = choose|k: int| 0 <= k < self.dirty@.len() && self.dirty@[k] == x;
                            assert(before[k] == x);
                        }
                        if before.contains(x) && x != c {
                            let k = choose|k: int| 0 <= k < before.len() && before[k] == x;
                            assert(self.dirty@[k] == x);
                        }
                    }
                    assert(self.dirty@.to_set() =~= before.to_set().remove(c));
                }
                let last = self.dirty.len() == 0;
                Some((c, last))
            },
        }
    }
}

} // verus!
