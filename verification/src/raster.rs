use vstd::prelude::*;

verus! {

/// The distance between two coordinates.
pub open spec fn span(a: int, b: int) -> int {
    if a <= b {
        b - a
    } else {
        a - b
    }
}

/// The unit step that leads from `a` towards `b` (`-1` when they are equal).
pub open spec fn dir(a: int, b: int) -> int {
    if a < b {
        1
    } else {
        -1
    }
}

/// The running error of the line walk from `(x0, y0)` to `(x1, y1)` at point `p`:
/// `dx - dy - i * dy + j * dx`, where `i` and `j` are the distances already
/// covered along each axis.
pub open spec fn line_err(x0: int, y0: int, x1: int, y1: int, p: (int, int)) -> int {
    let dx = span(x0, x1);
    let dy = span(y0, y1);
    dx - dy - span(x0, p.0) * dy + span(y0, p.1) * dx
}

/// The point that follows `p` on the line walk: a step along x when twice the
/// error exceeds `-dy`, a step along y when it is below `dx` (both may happen).
pub open spec fn line_next(x0: int, y0: int, x1: int, y1: int, p: (int, int)) -> (int, int) {
    let dx = span(x0, x1);
    let dy = span(y0, y1);
    let e2 = 2 * line_err(x0, y0, x1, y1, p);
    (
        if e2 > -dy { p.0 + dir(x0, x1) } else { p.0 },
        if e2 < dx { p.1 + dir(y0, y1) } else { p.1 },
    )
}

/// The points visited from `p` on, for at most `fuel` steps, stopping before the end point.
pub open spec fn trace_from(x0: int, y0: int, x1: int, y1: int, p: (int, int), fuel: nat) -> Seq<
    (int, int),
>
    decreases fuel,
{
    if p == (x1, y1) || fuel == 0 {
        Seq::empty()
    } else {
        seq![p] + trace_from(x0, y0, x1, y1, line_next(x0, y0, x1, y1, p), (fuel - 1) as nat)
    }
}

/// The pixels of the line from `(x0, y0)` to `(x1, y1)`: the start point and every
/// point the walk reaches before the end point, which itself is not included.
pub open spec fn line_trace(x0: int, y0: int, x1: int, y1: int) -> Seq<(int, int)> {
    trace_from(x0, y0, x1, y1, (x0, y0), (span(x0, x1) + span(y0, y1)) as nat)
}

/// The larger of the distances along x and along y between two points.
pub open spec fn longer_span(x0: int, y0: int, x1: int, y1: int) -> int {
    if span(x0, x1) >= span(y0, y1) {
        span(x0, x1)
    } else {
        span(y0, y1)
    }
}

/// A list of integer points as mathematical pairs.
pub open spec fn int_points(pts: Seq<(i32, i32)>) -> Seq<(int, int)> {
    pts.map_values(|p: (i32, i32)| (p.0 as int, p.1 as int))
}

proof fn lemma_err_step(dx: int, dy: int, i: int, j: int) by (nonlinear_arith)
    ensures
        dx - dy - (i + 1) * dy + j * dx == dx - dy - i * dy + j * dx - dy,
        dx - dy - i * dy + (j + 1) * dx == dx - dy - i * dy + j * dx + dx,
        dx - dy - (i + 1) * dy + (j + 1) * dx == dx - dy - i * dy + j * dx - dy + dx,
{
}

proof fn lemma_err_bounds(dx: int, dy: int, i: int, j: int)
    requires
        0 <= i <= dx <= 0x1_0000_0000,
        0 <= j <= dy <= 0x1_0000_0000,
    ensures
        -0x10_0000_0000_0000_0000 <= dx - dy - i * dy + j * dx <= 0x10_0000_0000_0000_0000,
{
    assert(0 <= i * dy <= 0x1_0000_0000 * 0x1_0000_0000) by (nonlinear_arith)
        requires
            0 <= i <= 0x1_0000_0000,
            0 <= dy <= 0x1_0000_0000,
    ;
    assert(0 <= j * dx <= 0x1_0000_0000 * 0x1_0000_0000) by (nonlinear_arith)
        requires
            0 <= j <= 0x1_0000_0000,
            0 <= dx <= 0x1_0000_0000,
    ;
}

/// At the last column with rows still to go, the error is at most `-dy`.
proof fn lemma_err_at_last_column(dx: int, dy: int, j: int)
    requires
        0 <= dx,
        0 <= j < dy,
    ensures
        dx - dy - dx * dy + j * dx <= -dy,
{
    assert(j * dx <= (dy - 1) * dx && (dy - 1) * dx == dy * dx - dx && dy * dx == dx * dy) by (nonlinear_arith)
        requires
            0 <= j <= dy - 1,
            0 <= dx,
    ;
}

/// At the last row with columns still to go, the error is at least `dx`.
proof fn lemma_err_at_last_row(dx: int, dy: int, i: int)
    requires
        0 <= dy,
        0 <= i < dx,
    ensures
        dx - dy - i * dy + dy * dx >= dx,
{
    assert(i * dy <= (dx - 1) * dy && (dx - 1) * dy == dy * dx - dy) by (nonlinear_arith)
        requires
            0 <= i <= dx - 1,
            0 <= dy,
    ;
}

/// The pixels of a line between two integer points as walked by the integer
/// line algorithm: the start point first, each next point one step along x,
/// along y or both, the end point left out (so equal points give no pixel).
#[verifier::rlimit(40)]
pub fn line_pixels(x0: i32, y0: i32, x1: i32, y1: i32) -> (pts: Vec<(i32, i32)>)
    ensures
        int_points(pts@) == line_trace(x0 as int, y0 as int, x1 as int, y1 as int),
        pts@.len() == 0 <==> (x0 == x1 && y0 == y1),
        pts@.len() > 0 ==> pts@[0] == (x0, y0),
        pts@.len() == longer_span(x0 as int, y0 as int, x1 as int, y1 as int),
{
    let ghost gx0 = x0 as int;
    let ghost gy0 = y0 as int;
    let ghost gx1 = x1 as int;
    let ghost gy1 = y1 as int;
    let dx: i64 = if x0 <= x1 {
        x1 as i64 - x0 as i64
    } else {
        x0 as i64 - x1 as i64
    };
    let dy: i64 = if y0 <= y1 {
        y1 as i64 - y0 as i64
    } else {
        y0 as i64 - y1 as i64
    };
    let sx: i32 = if x0 < x1 {
        1
    } else {
        -1
    };
    let sy: i32 = if y0 < y1 {
        1
    } else {
        -1
    };
    let ghost fuel: int = dx + dy;
    let mut err: i128 = dx as i128 - dy as i128;
    let mut x: i32 = x0;
    let mut y: i32 = y0;
    let mut pts: Vec<(i32, i32)> = Vec::new();
    proof {
        assert(line_err(gx0, gy0, gx1, gy1, (gx0, gy0)) == dx - dy) by (nonlinear_arith)
            requires
                span(gx0, gx0) == 0,
                span(gy0, gy0) == 0,
                dx == span(gx0, gx1),
                dy == span(gy0, gy1),
        ;
        assert(int_points(pts@) =~= Seq::<(int, int)>::empty());
    }
    while x != x1 || y != y1
        invariant
            dx == span(gx0, gx1),
            dy == span(gy0, gy1),
            fuel == dx + dy,
            sx == dir(gx0, gx1),
            sy == dir(gy0, gy1),
            gx0 == x0,
            gy0 == y0,
            gx1 == x1,
            gy1 == y1,
            span(gx0, x as int) + span(x as int, gx1) == dx,
            span(gy0, y as int) + span(y as int, gy1) == dy,
            err == line_err(gx0, gy0, gx1, gy1, (x as int, y as int)),
            pts@.len() + span(x as int, gx1) + span(y as int, gy1) <= fuel,
            span(gx0, x as int) <= pts@.len(),
            span(gy0, y as int) <= pts@.len(),
            pts@.len() <= span(gx0, x as int) + span(gy0, y as int),
            pts@.len() > 0 ==> pts@[0] == (x0, y0),
            pts@.len() == 0 ==> x == x0 && y == y0,
            dx + dy > 0 && dx >= dy ==> {
                &&& -dy < 2 * err
                &&& (2 * err < dx || dx > dy)
                &&& 2 * err <= 3 * dx - 2 * dy
                &&& pts@.len() == span(gx0, x as int)
            },
            dx + dy > 0 && dy >= dx ==> {
                &&& 2 * err < dx
                &&& (2 * err > -dy || dy > dx)
                &&& 2 * err >= 2 * dx - 3 * dy
                &&& pts@.len() == span(gy0, y as int)
            },
            int_points(pts@) + trace_from(
                gx0,
                gy0,
                gx1,
                gy1,
                (x as int, y as int),
                (fuel - pts@.len()) as nat,
            ) == line_trace(gx0, gy0, gx1, gy1),
        decreases span(x as int, gx1) + span(y as int, gy1),
    {
        let ghost p = (x as int, y as int);
        let ghost i = span(gx0, x as int);
        let ghost j = span(gy0, y as int);
        let ghost old_pts = pts@;
        proof {
            lemma_err_bounds(dx as int, dy as int, i, j);
            lemma_err_step(dx as int, dy as int, i, j);
            if x == x1 {
                lemma_err_at_last_column(dx as int, dy as int, j);
            }
            if y == y1 {
                lemma_err_at_last_row(dx as int, dy as int, i);
            }
            assert(trace_from(gx0, gy0, gx1, gy1, p, (fuel - pts@.len()) as nat) == seq![p]
                + trace_from(
                gx0,
                gy0,
                gx1,
                gy1,
                line_next(gx0, gy0, gx1, gy1, p),
                (fuel - pts@.len() - 1) as nat,
            ));
        }
        pts.push((x, y));
        let e2: i128 = err * 2;
        if e2 > -(dy as i128) {
            err = err - dy as i128;
            x = x + sx;
        }
        if e2 < dx as i128 {
            err = err + dx as i128;
            y = y + sy;
        }
        proof {
            assert((x as int, y as int) == line_next(gx0, gy0, gx1, gy1, p));
            assert(int_points(pts@) =~= int_points(old_pts) + seq![p]);
            assert(int_points(pts@) + trace_from(
                gx0,
                gy0,
                gx1,
                gy1,
                (x as int, y as int),
                (fuel - pts@.len()) as nat,
            ) =~= int_points(old_pts) + trace_from(
                gx0,
                gy0,
                gx1,
                gy1,
                p,
                (fuel - old_pts.len()) as nat,
            ));
        }
    }
    proof {
        assert(int_points(pts@) + trace_from(
            gx0,
            gy0,
            gx1,
            gy1,
            (x as int, y as int),
            (fuel - pts@.len()) as nat,
        ) =~= int_points(pts@));
    }
    pts
}


/// A rectangle of the framebuffer that is rendered into a buffer of its own
/// (four bytes per pixel, row by row).
#[derive(Clone, Copy, Debug, PartialEq, Eq, Structural)]
pub struct TileRect {
    pub x: usize,
    pub y: usize,
    pub width: usize,
    pub height: usize,
}

/// The pixel of the tile buffer that holds screen point `p`, or `-1` when the
/// point lies outside the tile.
pub open spec fn tile_cell(tile: TileRect, p: (int, int)) -> int {
    let tx = p.0 - tile.x;
    let ty = p.1 - tile.y;
    if 0 <= tx < tile.width && 0 <= ty < tile.height {
        ty * tile.width + tx
    } else {
        -1
    }
}

/// Whether one of the points falls on pixel `q` of the tile.
pub open spec fn covered(tile: TileRect, pts: Seq<(int, int)>, q: int) -> bool {
    exists|k: int| 0 <= k < pts.len() && tile_cell(tile, #[trigger] pts[k]) == q
}

proof fn lemma_cell_in_tile(tx: int, ty: int, w: int, h: int)
    requires
        0 <= tx < w,
        0 <= ty < h,
    ensures
        0 <= ty * w + tx < w * h,
        (ty * w + tx) * 4 + 4 <= w * h * 4,
{
    assert(ty * w <= (h - 1) * w && (h - 1) * w == w * h - w && 0 <= ty * w) by (nonlinear_arith)
        requires
            0 <= ty <= h - 1,
            0 <= w,
    ;
}

/// Draws the pixels of the line from `(x0, y0)` to `(x1, y1)` (as `line_pixels`
/// gives them) that fall inside the tile into the tile buffer, in `color`; every
/// other byte keeps its value.
pub fn draw_line(buffer: &mut [u8], x0: i32, y0: i32, x1: i32, y1: i32, tile: &TileRect, color: [u8; 4])
    requires
        tile.width * tile.height * 4 <= old(buffer)@.len(),
    ensures
        final(buffer)@.len() == old(buffer)@.len(),
        forall|n: int|
            0 <= n < tile.width * tile.height * 4 ==> #[trigger] final(buffer)@[n] == if covered(
                *tile,
                line_trace(x0 as int, y0 as int, x1 as int, y1 as int),
                n / 4,
            ) {
                color[n % 4]
            } else {
                old(buffer)@[n]
            },
        forall|n: int|
            tile.width * tile.height * 4 <= n < old(buffer)@.len() ==> #[trigger] final(buffer)@[n]
                == old(buffer)@[n],
{
    let pts = line_pixels(x0, y0, x1, y1);
    let ghost trace = int_points(pts@);
    let ghost size = tile.width * tile.height * 4;
    let mut k: usize = 0;
    while k < pts.len()
        invariant
            k <= pts@.len(),
            trace == int_points(pts@),
            trace == line_trace(x0 as int, y0 as int, x1 as int, y1 as int),
            size == tile.width * tile.height * 4,
            size <= old(buffer)@.len(),
            buffer@.len() == old(buffer)@.len(),
            forall|n: int|
                0 <= n < size ==> #[trigger] buffer@[n] == if covered(*tile, trace.take(k as int), n / 4) {
                    color[n % 4]
                } else {
                    old(buffer)@[n]
                },
            forall|n: int| size <= n < old(buffer)@.len() ==> #[trigger] buffer@[n] == old(buffer)@[n],
        decreases pts@.len() - k,
    {
        let (x, y) = pts[k];
        let ghost before = buffer@;
        let tx: i128 = x as i128 - tile.x as i128;
        let ty: i128 = y as i128 - tile.y as i128;
        let ghost p = trace[k as int];
        assert(p == (x as int, y as int));
        if 0 <= tx && tx < tile.width as i128 && 0 <= ty && ty < tile.height as i128 {
            proof {
                lemma_cell_in_tile(tx as int, ty as int, tile.width as int, tile.height as int);
            }
            let tyu: usize = ty as usize;
            let txu: usize = tx as usize;
            assert(tyu == ty && txu == tx);
            assert(buffer@.len() == buffer.len());
            assert(tyu * tile.width + txu < tile.width * tile.height);
            let cell: usize = tyu * tile.width + txu;
            let idx: usize = cell * 4;
            buffer[idx] = color[0];
            buffer[idx + 1] = color[1];
            buffer[idx + 2] = color[2];
            buffer[idx + 3] = color[3];
            proof {
                assert(tile_cell(*tile, p) == cell);
                assert forall|n: int| 0 <= n < size implies #[trigger] buffer@[n] == if covered(
                    *tile,
                    trace.take(k + 1),
                    n / 4,
                ) {
                    color[n % 4]
                } else {
                    old(buffer)@[n]
                } by {
                    assert(trace.take(k + 1)[k as int] == p);
                    if n / 4 == cell {
                        assert(covered(*tile, trace.take(k + 1), n / 4));
                    } else {
                        assert(buffer@[n] == before[n]);
                        if covered(*tile, trace.take(k + 1), n / 4) {
                            let t1 = trace.take(k + 1);
                            let w = choose|w: int| 0 <= w < t1.len() && tile_cell(*tile, #[trigger] t1[w]) == n / 4;
                            assert(w != k);
                            assert(trace.take(k as int)[w] == trace.take(k + 1)[w]);
                        }
                        if covered(*tile, trace.take(k as int), n / 4) {
                            let t0 = trace.take(k as int);
                            let w = choose|w: int| 0 <= w < t0.len() && tile_cell(*tile, #[trigger] t0[w]) == n / 4;
                            assert(trace.take(k as int)[w] == trace.take(k + 1)[w]);
                        }
                    }
                }
            }
        } else {
            proof {
                assert(tile_cell(*tile, p) == -1);
                assert forall|n: int| 0 <= n < size implies #[trigger] buffer@[n] == if covered(
                    *tile,
                    trace.take(k + 1),
                    n / 4,
                ) {
                    color[n % 4]
                } else {
                    old(buffer)@[n]
                } by {
                    if covered(*tile, trace.take(k + 1), n / 4) {
                        let t1 = trace.take(k + 1);
                        let w = choose|w: int| 0 <= w < t1.len() && tile_cell(*tile, #[trigger] t1[w]) == n / 4;
                        assert(w != k);
                        assert(trace.take(k as int)[w] == trace.take(k + 1)[w]);
                    }
                    if covered(*tile, trace.take(k as int), n / 4) {
                        let t0 = trace.take(k as int);
                        let w = choose|w: int| 0 <= w < t0.len() && tile_cell(*tile, #[trigger] t0[w]) == n / 4;
                        assert(trace.take(k as int)[w] == trace.take(k + 1)[w]);
                    }
                }
            }
        }
        k = k + 1;
    }
    proof {
        assert(trace.take(k as int) =~= trace);
    }
}


/// How many tiles of size `ts` it takes to cover `len` pixels.
pub open spec fn tiles_along(len: int, ts: int) -> int {
    (len + ts - 1) / ts
}

/// The smaller of two integers.
pub open spec fn min_int(a: int, b: int) -> int {
    if a <= b {
        a
    } else {
        b
    }
}

/// Tile `c` of row `r` when a `width` x `height` screen is cut into tiles of
/// size `ts`: it starts at `(c * ts, r * ts)`, and the last tile of a row or
/// column is cut short at the screen's edge.
pub open spec fn is_screen_tile(t: TileRect, width: int, height: int, ts: int, r: int, c: int) -> bool {
    &&& t.x == c * ts
    &&& t.y == r * ts
    &&& t.width == min_int(ts, width - c * ts)
    &&& t.height == min_int(ts, height - r * ts)
}

proof fn lemma_tiles_along(len: int, ts: int, c: int)
    requires
        ts > 0,
        len >= 0,
        c >= 0,
    ensures
        (c * ts < len) == (c < tiles_along(len, ts)),
        tiles_along(len, ts) >= 0,
{
    let q = (len + ts - 1) / ts;
    let r = (len + ts - 1) % ts;
    vstd::arithmetic::div_mod::lemma_fundamental_div_mod(len + ts - 1, ts);
    assert(len + ts - 1 == ts * q + r && 0 <= r < ts);
    assert((c * ts < len) == (c < q)) by (nonlinear_arith)
        requires
            len + ts - 1 == ts * q + r,
            0 <= r < ts,
            c >= 0,
            ts > 0,
    ;
    assert(q >= 0) by (nonlinear_arith)
        requires
            len + ts - 1 == ts * q + r,
            0 <= r < ts,
            len >= 0,
            ts > 0,
    ;
}

proof fn lemma_row_major(r: int, c: int, cols: int)
    requires
        0 <= c < cols,
        0 <= r,
    ensures
        (r * cols + c) / cols == r,
        (r * cols + c) % cols == c,
        r * cols + c + 1 == if c + 1 < cols { r * cols + (c + 1) } else { (r + 1) * cols + 0 },
{
    vstd::arithmetic::div_mod::lemma_fundamental_div_mod_converse(r * cols + c, cols, r, c);
    assert((r + 1) * cols == r * cols + cols) by (nonlinear_arith);
}

/// Cuts a `width` x `height` screen into tiles of `tile_size` pixels, row by row,
/// left to right; tiles at the right and bottom edges are cut short.
pub fn screen_tiles(width: usize, height: usize, tile_size: usize) -> (tiles: Vec<TileRect>)
    requires
        tile_size > 0,
    ensures
        tiles@.len() == tiles_along(height as int, tile_size as int) * tiles_along(
            width as int,
            tile_size as int,
        ),
        forall|i: int|
            0 <= i < tiles@.len() ==> is_screen_tile(
                #[trigger] tiles@[i],
                width as int,
                height as int,
                tile_size as int,
                i / tiles_along(width as int, tile_size as int),
                i % tiles_along(width as int, tile_size as int),
            ),
{
    let ghost ts = tile_size as int;
    let ghost cols = tiles_along(width as int, ts);
    let ghost rows = tiles_along(height as int, ts);
    let mut tiles: Vec<TileRect> = Vec::new();
    let mut y: usize = 0;
    let ghost mut r: int = 0;
    proof {
        lemma_tiles_along(height as int, ts, 0);
        lemma_tiles_along(width as int, ts, 0);
    }
    while y < height
        invariant
            ts == tile_size,
            ts > 0,
            cols == tiles_along(width as int, ts),
            rows == tiles_along(height as int, ts),
            cols >= 0,
            0 <= r,
            y <= height,
            y < height ==> y == r * ts,
            y < height ==> r < rows,
            y >= height ==> r == rows,
            tiles@.len() == r * cols,
            forall|i: int|
                0 <= i < tiles@.len() ==> is_screen_tile(
                    #[trigger] tiles@[i],
                    width as int,
                    height as int,
                    ts,
                    i / cols,
                    i % cols,
                ),
        decreases height - y,
    {
        let th: usize = if height - y < tile_size {
            height - y
        } else {
            tile_size
        };
        let mut x: usize = 0;
        let ghost mut c: int = 0;
        proof {
            lemma_tiles_along(width as int, ts, 0);
        }
        while x < width
            invariant
                ts == tile_size,
                ts > 0,
                cols == tiles_along(width as int, ts),
                rows == tiles_along(height as int, ts),
                0 <= r,
                y == r * ts,
                y < height,
                th == min_int(ts, height - r * ts),
                0 <= c,
                x <= width,
                x < width ==> x == c * ts,
                x < width ==> c < cols,
                x >= width ==> c == cols,
                tiles@.len() == r * cols + c,
                forall|i: int|
                    0 <= i < tiles@.len() ==> is_screen_tile(
                        #[trigger] tiles@[i],
                        width as int,
                        height as int,
                        ts,
                        i / cols,
                        i % cols,
                    ),
            decreases width - x,
        {
            let tw: usize = if width - x < tile_size {
                width - x
            } else {
                tile_size
            };
            let ghost before = tiles@;
            tiles.push(TileRect { x, y, width: tw, height: th });
            proof {
                lemma_row_major(r, c, cols);
                assert(is_screen_tile(tiles@[r * cols + c], width as int, height as int, ts, r, c));
                assert forall|i: int| 0 <= i < tiles@.len() implies is_screen_tile(
                    #[trigger] tiles@[i],
                    width as int,
                    height as int,
                    ts,
                    i / cols,
                    i % cols,
                ) by {
                    if i < before.len() {
                        assert(tiles@[i] == before[i]);
                    }
                }
                assert((c + 1) * ts == c * ts + ts) by (nonlinear_arith);
                lemma_tiles_along(width as int, ts, c + 1);
            }
            x = x + tw;
            proof {
                if x < width {
                    assert(x == (c + 1) * ts);
                } else {
                    assert(c + 1 == cols) by {
                        lemma_tiles_along(width as int, ts, c);
                        if c + 1 < cols {
                            lemma_tiles_along(width as int, ts, c + 1);
                        }
                    }
                }
                c = c + 1;
                if x >= width {
                    assert(x >= width ==> c == cols);
                }
            }
        }
        proof {
            assert((r + 1) * cols == r * cols + cols) by (nonlinear_arith);
            assert((r + 1) * ts == r * ts + ts) by (nonlinear_arith);
        }
        y = y + th;
        proof {
            lemma_tiles_along(height as int, ts, r + 1);
            lemma_tiles_along(height as int, ts, r);
            r = r + 1;
        }
    }
    tiles
}


/// Whether screen pixel `(px, py)` lies in the tile.
pub open spec fn tile_contains(t: TileRect, px: int, py: int) -> bool {
    t.x <= px < t.x + t.width && t.y <= py < t.y + t.height
}

/// The tiles that `screen_tiles` cuts cover the screen without overlap: pixel
/// `(px, py)` lies in tile `(py / ts) * cols + px / ts`, and in no tile of
/// another row or column.
pub proof fn lemma_screen_tiles_partition(width: int, height: int, ts: int, px: int, py: int)
    requires
        ts > 0,
        0 <= px < width,
        0 <= py < height,
    ensures
        ({
            let cols = tiles_along(width, ts);
            let rows = tiles_along(height, ts);
            let i = (py / ts) * cols + px / ts;
            &&& 0 <= i < rows * cols
            &&& i / cols == py / ts
            &&& i % cols == px / ts
            &&& forall|t: TileRect|
                is_screen_tile(t, width, height, ts, py / ts, px / ts) ==> #[trigger] tile_contains(
                    t,
                    px,
                    py,
                )
        }),
        forall|t: TileRect, r: int, c: int|
            0 <= r && 0 <= c && #[trigger] is_screen_tile(t, width, height, ts, r, c) && tile_contains(
                t,
                px,
                py,
            ) ==> r == py / ts && c == px / ts,
{
    let cols = tiles_along(width, ts);
    let rows = tiles_along(height, ts);
    let r = py / ts;
    let c = px / ts;
    vstd::arithmetic::div_mod::lemma_fundamental_div_mod(px, ts);
    vstd::arithmetic::div_mod::lemma_fundamental_div_mod(py, ts);
    assert(0 <= c && 0 <= r) by {
        vstd::arithmetic::div_mod::lemma_div_pos_is_pos(px, ts);
        vstd::arithmetic::div_mod::lemma_div_pos_is_pos(py, ts);
    }
    assert(c * ts <= px < c * ts + ts && r * ts <= py < r * ts + ts) by (nonlinear_arith)
        requires
            px == ts * c + px % ts,
            py == ts * r + py % ts,
            0 <= px % ts < ts,
            0 <= py % ts < ts,
    ;
    lemma_tiles_along(width, ts, c);
    lemma_tiles_along(height, ts, r);
    lemma_row_major(r, c, cols);
    assert(r * cols + c < rows * cols && 0 <= r * cols) by (nonlinear_arith)
        requires
            0 <= r < rows,
            0 <= c < cols,
    ;
    assert forall|t: TileRect, r2: int, c2: int|
        0 <= r2 && 0 <= c2 && #[trigger] is_screen_tile(t, width, height, ts, r2, c2) && tile_contains(
            t,
            px,
            py,
        ) implies r2 == py / ts && c2 == px / ts by {
        vstd::arithmetic::div_mod::lemma_fundamental_div_mod_converse(px, ts, c2, px - c2 * ts);
        vstd::arithmetic::div_mod::lemma_fundamental_div_mod_converse(py, ts, r2, py - r2 * ts);
    }
}


/// The framebuffer byte that receives byte `b` of row `ty` of the tile, on a
/// screen `width` pixels wide.
pub open spec fn frame_byte(tile: TileRect, width: int, ty: int, b: int) -> int {
    ((tile.y + ty) * width + tile.x) * 4 + b
}

/// Whether framebuffer byte `n` receives a byte of one of the first `rows` rows of the tile.
pub open spec fn in_tile_rows(tile: TileRect, width: int, rows: int, n: int) -> bool {
    exists|ty: int, b: int|
        0 <= ty < rows && 0 <= b < tile.width * 4 && n == #[trigger] frame_byte(tile, width, ty, b)
}

proof fn lemma_frame_byte_injective(tile: TileRect, width: int, ty: int, b: int, ty2: int, b2: int)
    requires
        tile.width <= width,
        0 <= ty,
        0 <= ty2,
        0 <= b < tile.width * 4,
        0 <= b2 < tile.width * 4,
        frame_byte(tile, width, ty, b) == frame_byte(tile, width, ty2, b2),
    ensures
        ty == ty2,
        b == b2,
{
    assert(((tile.y + ty) * width + tile.x) * 4 + b == ((tile.y + ty2) * width + tile.x) * 4 + b2);
    assert(ty == ty2) by (nonlinear_arith)
        requires
            ((tile.y + ty) * width + tile.x) * 4 + b == ((tile.y + ty2) * width + tile.x) * 4 + b2,
            0 <= b < width * 4,
            0 <= b2 < width * 4,
    ;
}

proof fn lemma_frame_row_fits(tile: TileRect, width: int, ty: int, len: int)
    requires
        0 <= ty < tile.height,
        0 <= width,
        ((tile.y + tile.height - 1) * width + tile.x + tile.width) * 4 <= len,
    ensures
        0 <= frame_byte(tile, width, ty, 0),
        frame_byte(tile, width, ty, 0) + tile.width * 4 <= len,
        width >= 1 ==> tile.y + ty <= (tile.y + ty) * width,
{
    assert(width >= 1 ==> tile.y + ty <= (tile.y + ty) * width) by (nonlinear_arith)
        requires
            0 <= tile.y + ty,
    ;
    assert((tile.y + ty) * width <= (tile.y + tile.height - 1) * width && 0 <= (tile.y + ty) * width)
        by (nonlinear_arith)
        requires
            0 <= ty <= tile.height - 1,
            0 <= width,
            0 <= tile.y,
    ;
}

proof fn lemma_tile_row_fits(tile: TileRect, ty: int, len: int)
    requires
        0 <= ty < tile.height,
        tile.width * tile.height * 4 <= len,
    ensures
        0 <= ty * tile.width * 4,
        ty * tile.width * 4 + tile.width * 4 <= len,
{
    assert(ty * tile.width * 4 + tile.width * 4 <= tile.width * tile.height * 4 && 0 <= ty * tile.width * 4)
        by (nonlinear_arith)
        requires
            0 <= ty <= tile.height - 1,
            0 <= tile.width,
    ;
}

/// Copies a rendered tile buffer into the framebuffer of a screen `width` pixels
/// wide, row by row; the other framebuffer bytes keep their values.
pub fn blit_tile(pixels: &mut [u8], width: usize, tile: &TileRect, tile_buffer: &[u8])
    requires
        tile.width <= width,
        tile.height == 0 || ((tile.y + tile.height - 1) * width + tile.x + tile.width) * 4 <= old(
            pixels,
        )@.len(),
        tile.width * tile.height * 4 <= tile_buffer@.len(),
    ensures
        final(pixels)@.len() == old(pixels)@.len(),
        forall|ty: int, b: int|
            0 <= ty < tile.height && 0 <= b < tile.width * 4 ==> final(pixels)@[#[trigger] frame_byte(
                *tile,
                width as int,
                ty,
                b,
            )] == tile_buffer@[ty * tile.width * 4 + b],
        forall|n: int|
            0 <= n < old(pixels)@.len() && !in_tile_rows(*tile, width as int, tile.height as int, n)
                ==> #[trigger] final(pixels)@[n] == old(pixels)@[n],
{
    proof {
        assert(pixels@.len() == pixels.len());
        assert(tile_buffer@.len() == tile_buffer.len());
    }
    let mut ty: usize = 0;
    while ty < tile.height
        invariant
            tile.width <= width,
            pixels@.len() <= usize::MAX,
            tile_buffer@.len() <= usize::MAX,
            tile.height == 0 || ((tile.y + tile.height - 1) * width + tile.x + tile.width) * 4 <= old(
                pixels,
            )@.len(),
            tile.width * tile.height * 4 <= tile_buffer@.len(),
            ty <= tile.height,
            pixels@.len() == old(pixels)@.len(),
            forall|t: int, b: int|
                0 <= t < ty && 0 <= b < tile.width * 4 ==> pixels@[#[trigger] frame_byte(
                    *tile,
                    width as int,
                    t,
                    b,
                )] == tile_buffer@[t * tile.width * 4 + b],
            forall|n: int|
                0 <= n < old(pixels)@.len() && !in_tile_rows(*tile, width as int, ty as int, n)
                    ==> #[trigger] pixels@[n] == old(pixels)@[n],
        decreases tile.height - ty,
    {
        proof {
            lemma_frame_row_fits(*tile, width as int, ty as int, pixels@.len() as int);
            lemma_tile_row_fits(*tile, ty as int, tile_buffer@.len() as int);
        }
        let row_bytes: usize = tile.width * 4;
        let dst: usize = if width == 0 {
            0
        } else {
            ((tile.y + ty) * width + tile.x) * 4
        };
        let src: usize = ty * tile.width * 4;
        let ghost row_start = pixels@;
        let mut b: usize = 0;
        while b < row_bytes
            invariant
                tile.width <= width,
                row_bytes == tile.width * 4,
                pixels@.len() <= usize::MAX,
                tile_buffer@.len() <= usize::MAX,
                tile.height == 0 || ((tile.y + tile.height - 1) * width + tile.x + tile.width) * 4 <= old(
                    pixels,
                )@.len(),
                ty < tile.height,
                row_bytes > 0 ==> dst == frame_byte(*tile, width as int, ty as int, 0),
                dst + row_bytes <= pixels@.len(),
                src == ty * tile.width * 4,
                src + row_bytes <= tile_buffer@.len(),
                b <= row_bytes,
                pixels@.len() == old(pixels)@.len(),
                forall|t: int, c: int|
                    0 <= t < ty && 0 <= c < tile.width * 4 ==> pixels@[#[trigger] frame_byte(
                        *tile,
                        width as int,
                        t,
                        c,
                    )] == tile_buffer@[t * tile.width * 4 + c],
                forall|c: int|
                    0 <= c < b ==> pixels@[#[trigger] frame_byte(*tile, width as int, ty as int, c)]
                        == tile_buffer@[ty * tile.width * 4 + c],
                forall|n: int|
                    0 <= n < old(pixels)@.len() && !in_tile_rows(*tile, width as int, ty as int, n) && !(
                    dst <= n < dst + b) ==> #[trigger] pixels@[n] == old(pixels)@[n],
            decreases row_bytes - b,
        {
            let ghost before = pixels@;
            pixels[dst + b] = tile_buffer[src + b];
            proof {
                assert(frame_byte(*tile, width as int, ty as int, b as int) == dst + b);
                assert forall|t: int, c: int|
                    0 <= t < ty && 0 <= c < tile.width * 4 implies pixels@[#[trigger] frame_byte(
                        *tile,
                        width as int,
                        t,
                        c,
                    )] == tile_buffer@[t * tile.width * 4 + c] by {
                    lemma_frame_row_fits(*tile, width as int, t, pixels@.len() as int);
                    if frame_byte(*tile, width as int, t, c) == dst + b {
                        lemma_frame_byte_injective(*tile, width as int, t, c, ty as int, b as int);
                    }
                }
                assert forall|c: int|
                    0 <= c < b + 1 implies pixels@[#[trigger] frame_byte(
                        *tile,
                        width as int,
                        ty as int,
                        c,
                    )] == tile_buffer@[ty * tile.width * 4 + c] by {
                    assert(frame_byte(*tile, width as int, ty as int, c) == dst + c);
                }
            }
            b = b + 1;
        }
        proof {
            assert forall|n: int|
                0 <= n < old(pixels)@.len() && !in_tile_rows(*tile, width as int, ty + 1, n)
                    implies #[trigger] pixels@[n] == old(pixels)@[n] by {
                if dst <= n < dst + row_bytes {
                    let c = n - dst;
                    assert(n == frame_byte(*tile, width as int, ty as int, c));
                    assert(in_tile_rows(*tile, width as int, ty + 1, n));
                }
                if in_tile_rows(*tile, width as int, ty as int, n) {
                    let (t, c) = choose|t: int, c: int|
                        0 <= t < ty && 0 <= c < tile.width * 4 && n == #[trigger] frame_byte(
                            *tile,
                            width as int,
                            t,
                            c,
                        );
                    assert(in_tile_rows(*tile, width as int, ty + 1, n));
                }
            }
            assert forall|t: int, c: int|
                0 <= t < ty + 1 && 0 <= c < tile.width * 4 implies pixels@[#[trigger] frame_byte(
                    *tile,
                    width as int,
                    t,
                    c,
                )] == tile_buffer@[t * tile.width * 4 + c] by {
                if t == ty {
                    assert(c < b);
                }
            }
        }
        ty = ty + 1;
    }
}

} // verus!
