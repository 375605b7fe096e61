//! Tile coordinates and the view region calculator.
use vstd::prelude::*;

verus! {

/// The deepest level of detail the quadtree is cut into.
pub const MAX_ZOOM: u8 = 20;

/// A tile of the quadtree: column `x`, row `y` at level `z`.
#[derive(Clone, Copy, Debug, PartialEq, Eq, Structural, Hash)]
pub struct TileCoordinate {
    pub x: u32,
    pub y: u32,
    pub z: u8,
}

/// The camera's inverse-projected view, in tile units of the visible level:
/// the half-open box `[min_x, max_x) x [min_y, max_y)`.
#[derive(Clone, Copy, Debug, PartialEq, Eq, Structural)]
pub struct BoundingBox {
    pub min_x: i64,
    pub min_y: i64,
    pub max_x: i64,
    pub max_y: i64,
}

/// The tiles visible in one frame, in row-major order, and the zoom they
/// were computed for.
#[derive(Clone, Debug)]
pub struct ViewRegion {
    pub tiles: Vec<TileCoordinate>,
    pub zoom: u8,
}

/// Number of tiles along one side of the grid at `level`.
pub open spec fn tiles_per_side(level: int) -> int
    decreases level,
{
    if level <= 0 { 1 } else { 2 * tiles_per_side(level - 1) }
}

/// The level at which tiles are requested: the visible level, clipped to
/// the deepest level.
pub open spec fn clipped_level(visible_level: u8) -> u8 {
    if visible_level > MAX_ZOOM { MAX_ZOOM } else { visible_level }
}

/// A box with no area stands for a camera whose projection cannot be inverted.
pub open spec fn is_degenerate(bb: Option<BoundingBox>) -> bool {
    match bb {
        None => true,
        Some(b) => b.max_x <= b.min_x || b.max_y <= b.min_y,
    }
}

pub open spec fn lower_bound(lo: int, padding: int) -> int {
    if lo - padding < 0 { 0 } else { lo - padding }
}

pub open spec fn upper_bound(hi: int, padding: int, n: int) -> int {
    if hi + padding > n { n } else { hi + padding }
}

/// Whether tile `t` lies in the padded box, clipped to the grid at `level`.
pub open spec fn in_region(b: BoundingBox, padding: int, level: u8, t: TileCoordinate) -> bool {
    let n = tiles_per_side(level as int);
    &&& t.z == level
    &&& lower_bound(b.min_x as int, padding) <= t.x < upper_bound(b.max_x as int, padding, n)
    &&& lower_bound(b.min_y as int, padding) <= t.y < upper_bound(b.max_y as int, padding, n)
}

/// Whether `a` comes strictly before `b` in row-major order.
pub open spec fn row_major_before(a: TileCoordinate, b: TileCoordinate) -> bool {
    a.y < b.y || (a.y == b.y && a.x < b.x)
}

/// Strictly increasing in row-major order, hence free of repeats.
pub open spec fn row_major_sorted(s: Seq<TileCoordinate>) -> bool {
    forall|i: int, j: int| 0 <= i < j < s.len() ==> row_major_before(s[i], s[j])
}

proof fn lemma_tiles_per_side_bounds(level: int)
    requires
        0 <= level <= 20,
    ensures
        1 <= tiles_per_side(level) <= tiles_per_side(20),
        tiles_per_side(20) == 1048576,
    decreases level,
{
    reveal_with_fuel(tiles_per_side, 21);
    if level > 0 {
        lemma_tiles_per_side_bounds(level - 1);
    }
    lemma_tiles_per_side_monotone(level, 20);
}

proof fn lemma_tiles_per_side_monotone(a: int, b: int)
    requires
        0 <= a <= b,
    ensures
        1 <= tiles_per_side(a) <= tiles_per_side(b),
    decreases b,
{
    if b > a {
        lemma_tiles_per_side_monotone(a, b - 1);
    } else if a > 0 {
        lemma_tiles_per_side_monotone(a - 1, a - 1);
    }
}

fn side_length(level: u8) -> (r: u32)
    requires
        level <= MAX_ZOOM,
    ensures
        r as int == tiles_per_side(level as int),
        r <= 1048576,
{
    let mut r: u32 = 1;
    let mut i: u8 = 0;
    while i < level
        invariant
            i <= level <= MAX_ZOOM,
            r as int == tiles_per_side(i as int),
        decreases level - i,
    {
        proof {
            lemma_tiles_per_side_bounds(i as int);
            lemma_tiles_per_side_bounds(i + 1);
        }
        r = r * 2;
        i = i + 1;
    }
    proof {
        lemma_tiles_per_side_bounds(level as int);
    }
    r
}

fn clamp_low(lo: i64, padding: u32) -> (r: u32)
    ensures
        r as int == lower_bound(lo as int, padding as int) || (r == u32::MAX && lower_bound(lo as int, padding as int) > u32::MAX),
        lower_bound(lo as int, padding as int) <= u32::MAX ==> r as int == lower_bound(lo as int, padding as int),
{
    if lo <= padding as i64 {
        0
    } else if lo - (padding as i64) > u32::MAX as i64 {
        u32::MAX
    } else {
        (lo - padding as i64) as u32
    }
}

fn clamp_high(hi: i64, padding: u32, n: u32) -> (r: u32)
    ensures
        r as int == upper_bound(hi as int, padding as int, n as int) || (r == 0 && upper_bound(hi as int, padding as int, n as int) < 0),
        r <= n,
{
    if hi >= n as i64 - padding as i64 {
        n
    } else if hi + padding as i64 <= 0 {
        0
    } else {
        (hi + padding as i64) as u32
    }
}

impl ViewRegion {
    /// Computes the tiles whose extent meets the padded bounding box, at the
    /// visible level clipped to `MAX_ZOOM`, in row-major order. A degenerate
    /// camera (`None`, or a box without area) gives an empty region.
    pub fn new(bounding_box: Option<BoundingBox>, padding: u32, zoom: u8, visible_level: u8) -> (r: ViewRegion)
        ensures
            r.zoom == zoom,
            row_major_sorted(r.tiles@),
            is_degenerate(bounding_box) ==> r.tiles@.len() == 0,
            forall|t: TileCoordinate| r.tiles@.contains(t) <==> (!is_degenerate(bounding_box)
                && in_region(bounding_box->Some_0, padding as int, clipped_level(visible_level), t)),
    {
        let level: u8 = if visible_level > MAX_ZOOM { MAX_ZOOM } else { visible_level };
        let mut tiles: Vec<TileCoordinate> = Vec::new();
        match bounding_box {
            None => {},
            Some(b) => {
                if b.max_x <= b.min_x || b.max_y <= b.min_y {
                } else {
                    let n = side_length(level);
                    let x0 = clamp_low(b.min_x, padding);
                    let x1 = clamp_high(b.max_x, padding, n);
                    let y0 = clamp_low(b.min_y, padding);
                    let y1 = clamp_high(b.max_y, padding, n);
                    let mut y: u32 = y0;
                    while y < y1
                        invariant
                            y0 <= y <= y1 || y1 <= y0 == y,
                            y1 <= n,
                            row_major_sorted(tiles@),
                            forall|i: int| 0 <= i < tiles@.len() ==> tiles@[i].y < y,
                            forall|t: TileCoordinate| tiles@.contains(t) <==> (t.z == level && x0 <= t.x < x1 && y0 <= t.y < y),
                        decreases y1 - y,
                    {
                        let mut x: u32 = x0;
                        while x < x1
                            invariant
                                y0 <= y < y1 <= n,
                                x0 <= x <= x1 || x1 <= x0 == x,
                                row_major_sorted(tiles@),
                                forall|i: int| 0 <= i < tiles@.len() ==> row_major_before(tiles@[i], TileCoordinate { x, y, z: level }),
                                forall|t: TileCoordinate| tiles@.contains(t) <==> (t.z == level && ((x0 <= t.x < x1 && y0 <= t.y < y) || (t.y == y && x0 <= t.x < x))),
                            decreases x1 - x,
                        {
                            let t = TileCoordinate { x, y, z: level };
                            proof {
                                assert forall|u: TileCoordinate| tiles@.push(t).contains(u) <==> (u.z == level && ((x0 <= u.x < x1 && y0 <= u.y < y) || (u.y == y && x0 <= u.x < x + 1))) by {
                                    if tiles@.push(t).contains(u) && u != t {
                                        let k = tiles@.push(t).index_of(u);
                                        assert(tiles@.contains(u)) by { assert(tiles@[k] == u); }
                                    }
                                    if tiles@.contains(u) {
                                        let k = tiles@.index_of(u);
                                        assert(tiles@.push(t)[k] == u);
                                    }
                                    if u == t { assert(tiles@.push(t)[tiles@.len() as int] == u); }
                                };
                            }
                            tiles.push(t);
                            x = x + 1;
                        }
                        y = y + 1;
                    }
                }
            },
        }
        ViewRegion { tiles, zoom }
    }
}

} // verus!
