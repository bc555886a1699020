//! Tile-grid geometry: conversions between map coordinates, zoom levels and
//! discrete tile indices.
//!
//! Map coordinates are plain integers in a fixed scale chosen by the caller
//! (for example micro map-units); a level of detail carries its resolution in
//! the same scale, as map units per pixel.  All conversions are exact integer
//! arithmetic, so the grid maths can be stated and proved precisely.

use vstd::arithmetic::div_mod::{
    lemma_div_is_ordered, lemma_fundamental_div_mod, lemma_fundamental_div_mod_converse_div,
    lemma_mod_bound,
};
use vstd::arithmetic::mul::lemma_mul_inequality;
use vstd::prelude::*;

verus! {

/// Largest magnitude allowed for a map coordinate.
pub const COORD_LIMIT: i64 = 0x1000_0000_0000_0000;

/// Largest extent of one tile (resolution times pixel size) in map units.
pub const SPAN_LIMIT: u64 = 0x2000_0000_0000_0000;

/// Direction in which tile row numbers grow relative to the map's y axis.
#[derive(Clone, Copy, PartialEq, Eq, Structural, Debug)]
pub enum VerticalDirection {
    /// Row 0 is at the top of the map (largest y); rows grow downwards.
    TopToBottom,
    /// Row 0 is at the bottom of the map (smallest y); rows grow upwards.
    BottomToTop,
}

/// Discrete address of one tile in the resolution pyramid.
#[derive(Clone, Copy, PartialEq, Eq, Structural, Debug, Hash)]
pub struct TileIndex {
    /// Column of the tile; may be negative or beyond the level's width.
    pub x: i64,
    /// Row of the tile.
    pub y: i64,
    /// Level of detail the tile belongs to.
    pub z: u32,
}

impl TileIndex {
    /// Packs the three coordinates into an index.
    pub fn new(x: i64, y: i64, z: u32) -> (r: TileIndex)
        ensures
            r == (TileIndex { x, y, z }),
    {
        TileIndex { x, y, z }
    }
}

/// Tile address that remembers the unwrapped column while the map may have
/// been panned across the antimeridian.  The unwrapped value keys caches and
/// display positions; the wrapped value names the spatial cell.
#[derive(Clone, Copy, PartialEq, Eq, Structural, Debug, Hash)]
pub struct WrappingTileIndex {
    /// Unwrapped column, as produced by the covering computation.
    pub x: i64,
    /// Row of the tile.
    pub y: i64,
    /// Level of detail the tile belongs to.
    pub z: u32,
}

impl WrappingTileIndex {
    /// Packs the three coordinates into a wrapping index.
    pub fn new(x: i64, y: i64, z: u32) -> (r: WrappingTileIndex)
        ensures
            r == (WrappingTileIndex { x, y, z }),
    {
        WrappingTileIndex { x, y, z }
    }

    /// The column normalised into `0 .. width`, where `width` is the number
    /// of tile columns of the level.
    pub open spec fn spec_wrapped_x(self, width: u64) -> int {
        self.x as int % width as int
    }

    /// Normalises the column modulo the level's width.
    pub fn wrapped_x(&self, width: u64) -> (r: u64)
        requires
            1 <= width <= 0x7fff_ffff_ffff_ffff,
        ensures
            r == self.spec_wrapped_x(width),
    {
        let w = width as i64;
        proof {
            lemma_mod_bound(self.x as int, w as int);
        }
        let m = self.x.checked_rem_euclid(w).unwrap();
        m as u64
    }

    /// The plain index behind the wrapping one.
    pub open spec fn unwrapped_spec(self) -> TileIndex {
        TileIndex { x: self.x, y: self.y, z: self.z }
    }

    /// Forgets the wrapping information.
    pub fn unwrapped(&self) -> (r: TileIndex)
        ensures
            r == self.unwrapped_spec(),
    {
        TileIndex { x: self.x, y: self.y, z: self.z }
    }
}

/// Two columns name the same spatial cell exactly when they agree modulo the
/// level's width: wrapping loses nothing but whole-world repetitions.
pub proof fn lemma_wrapped_x_same_cell(a: WrappingTileIndex, b: WrappingTileIndex, width: u64)
    requires
        1 <= width,
    ensures
        a.spec_wrapped_x(width) == b.spec_wrapped_x(width) <==> (a.x - b.x) % (width as int) == 0,
{
    let w = width as int;
    vstd::arithmetic::div_mod::lemma_mod_equivalence(a.x as int, b.x as int, w);
}

/// One step of the resolution pyramid.
#[derive(Clone, Copy, PartialEq, Eq, Structural, Debug)]
pub struct Lod {
    /// Map units covered by one pixel at this level; strictly positive.
    pub resolution: u64,
    /// Zoom level this step belongs to.
    pub level: u32,
}

impl Lod {
    /// Builds a level of detail, rejecting a zero resolution.
    pub fn new(resolution: u64, level: u32) -> (r: Option<Lod>)
        ensures
            r is Some <==> resolution >= 1,
            r is Some ==> r->Some_0 == (Lod { resolution, level }),
    {
        if resolution >= 1 {
            Some(Lod { resolution, level })
        } else {
            None
        }
    }
}

/// An axis-aligned point in map units.
#[derive(Clone, Copy, PartialEq, Eq, Structural, Debug)]
pub struct Point {
    /// Horizontal map coordinate.
    pub x: i64,
    /// Vertical map coordinate.
    pub y: i64,
}

impl Point {
    /// The coordinates stay within the supported magnitude.
    pub open spec fn bounded(self) -> bool {
        -COORD_LIMIT <= self.x <= COORD_LIMIT && -COORD_LIMIT <= self.y <= COORD_LIMIT
    }
}

/// An axis-aligned rectangle in map units, edges included.
#[derive(Clone, Copy, PartialEq, Eq, Structural, Debug)]
pub struct Rect {
    /// Smallest contained x coordinate.
    pub x_min: i64,
    /// Smallest contained y coordinate.
    pub y_min: i64,
    /// Largest contained x coordinate.
    pub x_max: i64,
    /// Largest contained y coordinate.
    pub y_max: i64,
}

impl Rect {
    /// Builds a rectangle from its edges.
    pub fn new(x_min: i64, y_min: i64, x_max: i64, y_max: i64) -> (r: Rect)
        ensures
            r == (Rect { x_min, y_min, x_max, y_max }),
    {
        Rect { x_min, y_min, x_max, y_max }
    }

    /// The edges stay within the supported magnitude.
    pub open spec fn bounded(self) -> bool {
        &&& -COORD_LIMIT <= self.x_min <= COORD_LIMIT
        &&& -COORD_LIMIT <= self.y_min <= COORD_LIMIT
        &&& -COORD_LIMIT <= self.x_max <= COORD_LIMIT
        &&& -COORD_LIMIT <= self.y_max <= COORD_LIMIT
    }

    /// The x range runs backwards or the y range does.
    pub open spec fn spec_inverted(self) -> bool {
        self.x_min > self.x_max || self.y_min > self.y_max
    }

    /// Whether the point lies inside the rectangle, edges included.
    pub open spec fn spec_contains(self, x: int, y: int) -> bool {
        self.x_min <= x <= self.x_max && self.y_min <= y <= self.y_max
    }

    /// Whether the two closed rectangles share at least one point.
    pub open spec fn spec_intersects(self, other: Rect) -> bool {
        &&& self.x_min <= other.x_max
        &&& other.x_min <= self.x_max
        &&& self.y_min <= other.y_max
        &&& other.y_min <= self.y_max
    }

    /// Decides whether the point lies inside the rectangle.
    pub fn contains(&self, x: i64, y: i64) -> (r: bool)
        ensures
            r == self.spec_contains(x as int, y as int),
    {
        self.x_min <= x && x <= self.x_max && self.y_min <= y && y <= self.y_max
    }

    /// Decides whether the two closed rectangles overlap.
    pub fn intersects(&self, other: &Rect) -> (r: bool)
        ensures
            r == self.spec_intersects(*other),
    {
        self.x_min <= other.x_max && other.x_min <= self.x_max && self.y_min <= other.y_max
            && other.y_min <= self.y_max
    }
}

/// Quotient of `a / w` rounded towards negative infinity, for `w > 0`.
pub open spec fn div_floor(a: int, w: int) -> int {
    a / w
}

/// Quotient of `a / w` rounded towards zero, for `w > 0`.
pub open spec fn div_trunc(a: int, w: int) -> int {
    if a >= 0 {
        a / w
    } else {
        -((-a) / w)
    }
}

/// Remainder matching [`div_trunc`]: has the sign of `a`.
pub open spec fn rem_trunc(a: int, w: int) -> int {
    a - w * div_trunc(a, w)
}

/// The floor quotient of a bounded dividend stays within the same bound.
pub proof fn lemma_div_floor_bounds(a: int, w: int, c: int)
    requires
        1 <= w,
        0 < c,
        -c <= a <= c,
    ensures
        -c <= div_floor(a, w) <= c,
{
    lemma_fundamental_div_mod(a, w);
    lemma_mod_bound(a, w);
    let q = a / w;
    let r = a % w;
    assert(-c <= q <= c) by (nonlinear_arith)
        requires
            w * q + r == a,
            0 <= r < w,
            1 <= w,
            0 < c,
            -c <= a <= c,
    ;
}

/// Computes `a / w` rounded towards negative infinity.
pub fn div_floor_i64(a: i64, w: i64) -> (r: i64)
    requires
        1 <= w,
        -0x4000_0000_0000_0000 <= a <= 0x4000_0000_0000_0000,
    ensures
        r == div_floor(a as int, w as int),
        -0x4000_0000_0000_0000 <= r <= 0x4000_0000_0000_0000,
{
    proof {
        lemma_fundamental_div_mod(a as int, w as int);
        lemma_mod_bound(a as int, w as int);
        lemma_div_floor_bounds(a as int, w as int, 0x4000_0000_0000_0000);
    }
    a.checked_div_euclid(w).unwrap()
}

/// Computes `a / w` rounded towards zero, with the matching remainder.
pub fn div_rem_trunc_i64(a: i64, w: i64) -> (r: (i64, i64))
    requires
        1 <= w,
        -0x4000_0000_0000_0000 <= a <= 0x4000_0000_0000_0000,
    ensures
        r.0 == div_trunc(a as int, w as int),
        r.1 == rem_trunc(a as int, w as int),
        -0x4000_0000_0000_0000 <= r.0 <= 0x4000_0000_0000_0000,
{
    if a >= 0 {
        proof {
            lemma_fundamental_div_mod(a as int, w as int);
            lemma_mod_bound(a as int, w as int);
            lemma_div_floor_bounds(a as int, w as int, 0x4000_0000_0000_0000);
        }
        let q = a.checked_div_euclid(w).unwrap();
        let m = a.checked_rem_euclid(w).unwrap();
        (q, m)
    } else {
        let n = -a;
        proof {
            lemma_fundamental_div_mod(n as int, w as int);
            lemma_mod_bound(n as int, w as int);
            lemma_div_floor_bounds(n as int, w as int, 0x4000_0000_0000_0000);
        }
        let q = n.checked_div_euclid(w).unwrap();
        let m = n.checked_rem_euclid(w).unwrap();
        proof {
            let qt = div_trunc(a as int, w as int);
            assert(qt == -(q as int));
            assert(a as int - w as int * (-(q as int)) == -(m as int)) by (nonlinear_arith)
                requires
                    w as int * (q as int) + m as int == n as int,
                    n as int == -(a as int),
            ;
        }
        (-q, -m)
    }
}

/// Largest tile column or row index within the tolerance rule: the truncated
/// quotient, pulled in by one when the edge lands within `tol` of (or on) a
/// grid line.
pub open spec fn max_index(a: int, w: int, tol: int) -> int {
    if rem_trunc(a, w) < tol {
        div_trunc(a, w) - 1
    } else {
        div_trunc(a, w)
    }
}

/// Computes [`max_index`] on machine integers.
pub fn max_index_i64(a: i64, w: i64, tol: i64) -> (r: i64)
    requires
        1 <= w,
        0 <= tol < w,
        -0x4000_0000_0000_0000 <= a <= 0x4000_0000_0000_0000,
    ensures
        r == max_index(a as int, w as int, tol as int),
        -0x4000_0000_0000_0001 <= r <= 0x4000_0000_0000_0000,
{
    let (q, m) = div_rem_trunc_i64(a, w);
    if m < tol {
        q - 1
    } else {
        q
    }
}

/// Relates the truncating quotient and remainder to the flooring ones.
pub proof fn lemma_trunc_vs_floor(a: int, w: int)
    requires
        1 <= w,
    ensures
        a >= 0 ==> div_trunc(a, w) == div_floor(a, w) && rem_trunc(a, w) == a % w,
        a < 0 && (-a) % w == 0 ==> div_trunc(a, w) == div_floor(a, w) && rem_trunc(a, w) == 0,
        a < 0 && (-a) % w != 0 ==> div_trunc(a, w) == div_floor(a, w) + 1 && rem_trunc(a, w)
            == -((-a) % w),
        a >= 0 ==> 0 <= rem_trunc(a, w) < w,
        a < 0 ==> -w < rem_trunc(a, w) <= 0,
{
    if a >= 0 {
        lemma_fundamental_div_mod(a, w);
        lemma_mod_bound(a, w);
    } else {
        let n = -a;
        lemma_fundamental_div_mod(n, w);
        lemma_mod_bound(n, w);
        let qn = n / w;
        let rn = n % w;
        if rn == 0 {
            assert(a == (-qn) * w + 0) by (nonlinear_arith)
                requires
                    n == w * qn + rn,
                    rn == 0,
                    a == -n,
            ;
            lemma_fundamental_div_mod_converse_div(a, w, -qn, 0);
            assert(rem_trunc(a, w) == a - w * (-qn)) by (nonlinear_arith)
                requires
                    div_trunc(a, w) == -qn,
            ;
            assert(a - w * (-qn) == 0) by (nonlinear_arith)
                requires
                    n == w * qn + rn,
                    rn == 0,
                    a == -n,
            ;
        } else {
            assert(a == (-qn - 1) * w + (w - rn)) by (nonlinear_arith)
                requires
                    n == w * qn + rn,
                    a == -n,
            ;
            lemma_fundamental_div_mod_converse_div(a, w, -qn - 1, w - rn);
            assert(rem_trunc(a, w) == a + w * qn) by (nonlinear_arith)
                requires
                    div_trunc(a, w) == -qn,
            ;
            assert(a + w * qn == -rn) by (nonlinear_arith)
                requires
                    n == w * qn + rn,
                    a == -n,
            ;
        }
    }
}

/// The tolerance-adjusted maximum index never exceeds the flooring quotient.
pub proof fn lemma_max_index_le_floor(a: int, w: int, tol: int)
    requires
        1 <= w,
        0 <= tol < w,
    ensures
        max_index(a, w, tol) <= div_floor(a, w),
{
    lemma_trunc_vs_floor(a, w);
}

/// A tile coordinate times a tile span stays far inside 128-bit range.
pub proof fn lemma_span_product_bounds(x: int, w: int)
    requires
        -0x1_0000_0000_0000_0000 <= x <= 0x1_0000_0000_0000_0000,
        0 <= w <= 0x2000_0000_0000_0000,
    ensures
        -0x2000_0000_0000_0000_0000_0000_0000_0000 <= x * w
            <= 0x2000_0000_0000_0000_0000_0000_0000_0000,
{
    assert(-0x2000_0000_0000_0000_0000_0000_0000_0000 <= x * w
        <= 0x2000_0000_0000_0000_0000_0000_0000_0000) by (nonlinear_arith)
        requires
            -0x1_0000_0000_0000_0000 <= x <= 0x1_0000_0000_0000_0000,
            0 <= w <= 0x2000_0000_0000_0000,
    ;
}

/// No tile index appears twice in the list.
pub open spec fn tiles_distinct(v: Seq<TileIndex>) -> bool {
    forall|i: int, j: int| 0 <= i < j < v.len() ==> v[i] != v[j]
}

/// Error of a lookup into the resolution pyramid.
#[derive(Clone, Copy, PartialEq, Eq, Structural, Debug)]
pub enum TileSchemaError {
    /// The requested zoom level is not part of the pyramid.
    NotFound,
}

/// Static description of a tile grid: origin, bounds, pyramid of levels of
/// detail, tile pixel size and vertical direction.
#[derive(Clone, Debug)]
pub struct TileSchema {
    /// Map point that tile (0, 0) of every level is anchored at.
    pub origin: Point,
    /// Extent of the mapped area; finite and non-degenerate.
    pub bounds: Rect,
    /// Resolution pyramid, levels strictly increasing, resolutions strictly
    /// decreasing.
    pub lods: Vec<Lod>,
    /// Width of one tile in pixels.
    pub tile_width: u32,
    /// Height of one tile in pixels.
    pub tile_height: u32,
    /// Which way tile rows grow.
    pub y_direction: VerticalDirection,
    /// Snap distance, in map units, within which a box edge lying just past a
    /// grid line is treated as lying on it.
    pub bounds_tolerance: u64,
}

impl TileSchema {
    /// Well-formedness of the schema configuration.
    pub open spec fn wf(self) -> bool {
        &&& 1 <= self.tile_width
        &&& 1 <= self.tile_height
        &&& self.origin.bounded()
        &&& self.bounds.bounded()
        &&& self.bounds.x_min < self.bounds.x_max
        &&& self.bounds.y_min < self.bounds.y_max
        &&& forall|i: int|
            0 <= i < self.lods@.len() ==> 1 <= (#[trigger] self.lods@[i]).resolution
        &&& forall|i: int|
            0 <= i < self.lods@.len() ==> (#[trigger] self.lods@[i]).resolution * self.tile_width
                <= SPAN_LIMIT && self.lods@[i].resolution * self.tile_height <= SPAN_LIMIT
        &&& forall|i: int, j: int|
            0 <= i < j < self.lods@.len() ==> (#[trigger] self.lods@[i]).level < (
            #[trigger] self.lods@[j]).level && self.lods@[i].resolution > self.lods@[j].resolution
        &&& forall|i: int|
            0 <= i < self.lods@.len() ==> self.bounds_tolerance < (
            #[trigger] self.lods@[i]).resolution
    }

    /// Whether the pyramid has a level `z`.
    pub open spec fn spec_has_lod(self, z: u32) -> bool {
        exists|i: int| 0 <= i < self.lods@.len() && (#[trigger] self.lods@[i]).level == z
    }

    /// The resolution of level `z`, where it exists.
    pub open spec fn spec_resolution(self, z: u32) -> u64 {
        self.lods@[choose|i: int| 0 <= i < self.lods@.len() && (#[trigger] self.lods@[i]).level
            == z].resolution
    }

    /// Looks up the resolution recorded for level `z`.
    pub fn lod_resolution(&self, z: u32) -> (r: Option<u64>)
        requires
            self.wf(),
        ensures
            r is Some <==> self.spec_has_lod(z),
            r is Some ==> r->Some_0 == self.spec_resolution(z),
    {
        let n = self.lods.len();
        let mut i: usize = 0;
        while i < n
            invariant
                self.wf(),
                0 <= i <= n,
                n == self.lods@.len(),
                forall|j: int| 0 <= j < i ==> (#[trigger] self.lods@[j]).level != z,
            decreases n - i,
        {
            if self.lods[i].level == z {
                proof {
                    assert(self.spec_has_lod(z));
                    let k = choose|k: int|
                        0 <= k < self.lods@.len() && (#[trigger] self.lods@[k]).level == z;
                    if k < i as int {
                        assert(self.lods@[k].level != z);
                    } else if k > i as int {
                        assert(self.lods@[i as int].level < self.lods@[k].level);
                    }
                }
                return Some(self.lods[i].resolution);
            }
            i += 1;
        }
        None
    }

    /// Extent of one tile of level `z` along x, in map units.
    pub open spec fn spec_tile_w(self, z: u32) -> int {
        self.spec_resolution(z) * self.tile_width
    }

    /// Extent of one tile of level `z` along y, in map units.
    pub open spec fn spec_tile_h(self, z: u32) -> int {
        self.spec_resolution(z) * self.tile_height
    }

    /// x coordinate of the box edges, shifted so that the origin is zero.
    pub open spec fn spec_x_adj(self, x: int) -> int {
        x - self.origin.x
    }

    /// y coordinate mapped into row-grid units: grows in the direction rows
    /// grow, zero at the origin.
    pub open spec fn spec_y_adj(self, y: int) -> int {
        match self.y_direction {
            VerticalDirection::TopToBottom => self.origin.y - y,
            VerticalDirection::BottomToTop => y - self.origin.y,
        }
    }

    /// First tile column covering the box.
    pub open spec fn spec_x_min_index(self, bbox: Rect, z: u32) -> int {
        div_floor(self.spec_x_adj(bbox.x_min as int), self.spec_tile_w(z))
    }

    /// Last tile column covering the box.
    pub open spec fn spec_x_max_index(self, bbox: Rect, z: u32) -> int {
        max_index(self.spec_x_adj(bbox.x_max as int), self.spec_tile_w(z), self.bounds_tolerance as int)
    }

    /// The grid-direction coordinate of the box edge where rows start.
    pub open spec fn spec_y_low_adj(self, bbox: Rect) -> int {
        match self.y_direction {
            VerticalDirection::TopToBottom => self.spec_y_adj(bbox.y_max as int),
            VerticalDirection::BottomToTop => self.spec_y_adj(bbox.y_min as int),
        }
    }

    /// The grid-direction coordinate of the box edge where rows end.
    pub open spec fn spec_y_high_adj(self, bbox: Rect) -> int {
        match self.y_direction {
            VerticalDirection::TopToBottom => self.spec_y_adj(bbox.y_min as int),
            VerticalDirection::BottomToTop => self.spec_y_adj(bbox.y_max as int),
        }
    }

    /// First tile row covering the box.
    pub open spec fn spec_y_min_index(self, bbox: Rect, z: u32) -> int {
        div_floor(self.spec_y_low_adj(bbox), self.spec_tile_h(z))
    }

    /// Last tile row covering the box.
    pub open spec fn spec_y_max_index(self, bbox: Rect, z: u32) -> int {
        max_index(self.spec_y_high_adj(bbox), self.spec_tile_h(z), self.bounds_tolerance as int)
    }

    /// Exactly which tile indices the covering of `bbox` at level `z` holds.
    pub open spec fn covering_contains(self, bbox: Rect, z: u32, t: TileIndex) -> bool {
        &&& !bbox.spec_inverted()
        &&& t.z == z
        &&& self.spec_x_min_index(bbox, z) <= t.x <= self.spec_x_max_index(bbox, z)
        &&& self.spec_y_min_index(bbox, z) <= t.y <= self.spec_y_max_index(bbox, z)
    }

    /// Smallest x coordinate of the tile's rectangle.
    pub open spec fn spec_tile_x_lo(self, t: TileIndex) -> int {
        self.origin.x + t.x * self.spec_tile_w(t.z)
    }

    /// Largest x coordinate of the tile's rectangle.
    pub open spec fn spec_tile_x_hi(self, t: TileIndex) -> int {
        self.origin.x + (t.x + 1) * self.spec_tile_w(t.z)
    }

    /// Smallest y coordinate of the tile's rectangle.
    pub open spec fn spec_tile_y_lo(self, t: TileIndex) -> int {
        match self.y_direction {
            VerticalDirection::TopToBottom => self.origin.y - (t.y + 1) * self.spec_tile_h(t.z),
            VerticalDirection::BottomToTop => self.origin.y + t.y * self.spec_tile_h(t.z),
        }
    }

    /// Largest y coordinate of the tile's rectangle.
    pub open spec fn spec_tile_y_hi(self, t: TileIndex) -> int {
        match self.y_direction {
            VerticalDirection::TopToBottom => self.origin.y - t.y * self.spec_tile_h(t.z),
            VerticalDirection::BottomToTop => self.origin.y + (t.y + 1) * self.spec_tile_h(t.z),
        }
    }

    /// Whether the point lies within the tile's rectangle, edges included.
    pub open spec fn spec_tile_contains_point(self, t: TileIndex, px: int, py: int) -> bool {
        &&& self.spec_tile_x_lo(t) <= px <= self.spec_tile_x_hi(t)
        &&& self.spec_tile_y_lo(t) <= py <= self.spec_tile_y_hi(t)
    }

    /// Whether the tile's rectangle and the box share at least one point.
    pub open spec fn spec_tile_meets_rect(self, t: TileIndex, r: Rect) -> bool {
        &&& self.spec_tile_x_lo(t) <= r.x_max
        &&& r.x_min <= self.spec_tile_x_hi(t)
        &&& self.spec_tile_y_lo(t) <= r.y_max
        &&& r.y_min <= self.spec_tile_y_hi(t)
    }

    /// All four corners of the tile's rectangle fit in machine coordinates.
    pub open spec fn spec_tile_rect_fits(self, t: TileIndex) -> bool {
        &&& i64::MIN <= self.spec_tile_x_lo(t) <= i64::MAX
        &&& i64::MIN <= self.spec_tile_x_hi(t) <= i64::MAX
        &&& i64::MIN <= self.spec_tile_y_lo(t) <= i64::MAX
        &&& i64::MIN <= self.spec_tile_y_hi(t) <= i64::MAX
    }

    /// The tile's rectangle, meaningful where [`Self::spec_tile_rect_fits`].
    pub open spec fn spec_tile_rect(self, t: TileIndex) -> Rect {
        Rect {
            x_min: self.spec_tile_x_lo(t) as i64,
            y_min: self.spec_tile_y_lo(t) as i64,
            x_max: self.spec_tile_x_hi(t) as i64,
            y_max: self.spec_tile_y_hi(t) as i64,
        }
    }

    /// The map rectangle of one tile, where the level exists and the corners
    /// fit in machine coordinates.
    pub open spec fn spec_tile_bbox(self, t: TileIndex) -> Option<Rect> {
        if self.spec_has_lod(t.z) && self.spec_tile_rect_fits(t) {
            Some(self.spec_tile_rect(t))
        } else {
            None
        }
    }

    /// Computes the map rectangle of one tile.  Yields nothing when the level
    /// is not in the pyramid or a corner leaves machine coordinates.
    pub fn tile_bbox(&self, index: TileIndex) -> (r: Option<Rect>)
        requires
            self.wf(),
        ensures
            r == self.spec_tile_bbox(index),
    {
        let res = match self.lod_resolution(index.z) {
            Some(res) => res,
            None => {
                return None;
            },
        };
        let w = res * (self.tile_width as u64);
        let h = res * (self.tile_height as u64);
        proof {
            let i = choose|i: int|
                0 <= i < self.lods@.len() && (#[trigger] self.lods@[i]).level == index.z;
            assert(self.lods@[i].resolution * self.tile_width <= SPAN_LIMIT);
            assert(self.lods@[i].resolution * self.tile_height <= SPAN_LIMIT);
        }
        proof {
            lemma_span_product_bounds(index.x as int, w as int);
            lemma_span_product_bounds(index.x as int + 1, w as int);
            lemma_span_product_bounds(index.y as int, h as int);
            lemma_span_product_bounds(index.y as int + 1, h as int);
        }
        let xl = self.origin.x as i128 + index.x as i128 * w as i128;
        let xh = self.origin.x as i128 + (index.x as i128 + 1) * w as i128;
        let (yl, yh) = match self.y_direction {
            VerticalDirection::TopToBottom => (
                self.origin.y as i128 - (index.y as i128 + 1) * h as i128,
                self.origin.y as i128 - index.y as i128 * h as i128,
            ),
            VerticalDirection::BottomToTop => (
                self.origin.y as i128 + index.y as i128 * h as i128,
                self.origin.y as i128 + (index.y as i128 + 1) * h as i128,
            ),
        };
        let lo = i64::MIN as i128;
        let hi = i64::MAX as i128;
        if xl < lo || xl > hi || xh < lo || xh > hi || yl < lo || yl > hi || yh < lo || yh > hi {
            return None;
        }
        Some(Rect { x_min: xl as i64, y_min: yl as i64, x_max: xh as i64, y_max: yh as i64 })
    }

    /// Computes the set of tile indices of level `z` whose rectangles cover
    /// the box, as the original grid arithmetic defines it: edge offsets from
    /// the origin divided by the tile extent, the minimum edge floored, the
    /// maximum edge pulled in by one where it lies within the tolerance of a
    /// grid line.  An inverted box yields no tiles; a missing level is an
    /// error.
    pub fn tiles_covering(&self, bbox: &Rect, z: u32) -> (r: Result<
        Vec<TileIndex>,
        TileSchemaError,
    >)
        requires
            self.wf(),
            bbox.bounded(),
        ensures
            r is Err <==> !self.spec_has_lod(z),
            r is Ok ==> forall|t: TileIndex|
                #[trigger] r->Ok_0@.contains(t) <==> self.covering_contains(*bbox, z, t),
            r is Ok ==> tiles_distinct(r->Ok_0@),
    {
        let res = match self.lod_resolution(z) {
            Some(res) => res,
            None => {
                return Err(TileSchemaError::NotFound);
            },
        };
        if bbox.x_min > bbox.x_max || bbox.y_min > bbox.y_max {
            return Ok(Vec::new());
        }
        proof {
            let i = choose|i: int|
                0 <= i < self.lods@.len() && (#[trigger] self.lods@[i]).level == z;
            assert(self.lods@[i].resolution * self.tile_width <= SPAN_LIMIT);
            assert(self.lods@[i].resolution * self.tile_height <= SPAN_LIMIT);
            assert(self.bounds_tolerance < self.lods@[i].resolution);
            assert(self.spec_resolution(z) * 1 <= self.spec_resolution(z) * self.tile_width)
                by (nonlinear_arith)
                requires
                    1 <= self.tile_width,
                    1 <= self.spec_resolution(z),
            ;
            assert(self.spec_resolution(z) * 1 <= self.spec_resolution(z) * self.tile_height)
                by (nonlinear_arith)
                requires
                    1 <= self.tile_height,
                    1 <= self.spec_resolution(z),
            ;
        }
        let w = res * (self.tile_width as u64);
        let h = res * (self.tile_height as u64);
        let wi = w as i64;
        let hi = h as i64;
        let tol = self.bounds_tolerance as i64;
        let ax_min = bbox.x_min - self.origin.x;
        let ax_max = bbox.x_max - self.origin.x;
        let (ay_low, ay_high) = match self.y_direction {
            VerticalDirection::TopToBottom => (
                self.origin.y - bbox.y_max,
                self.origin.y - bbox.y_min,
            ),
            VerticalDirection::BottomToTop => (
                bbox.y_min - self.origin.y,
                bbox.y_max - self.origin.y,
            ),
        };
        let x_min = div_floor_i64(ax_min, wi);
        let x_max = max_index_i64(ax_max, wi, tol);
        let y_min = div_floor_i64(ay_low, hi);
        let y_max = max_index_i64(ay_high, hi, tol);
        if x_max < x_min || y_max < y_min {
            return Ok(Vec::new());
        }
        let mut out: Vec<TileIndex> = Vec::new();
        let mut x = x_min;
        while x <= x_max
            invariant
                x_min <= x <= x_max + 1,
                x_max < 0x7fff_ffff_ffff_ffff,
                y_min <= y_max,
                -0x8000_0000_0000_0000 <= y_min,
                y_max < 0x7fff_ffff_ffff_ffff,
                forall|t: TileIndex|
                    #[trigger] out@.contains(t) <==> (t.z == z && x_min <= t.x < x && y_min <= t.y
                        <= y_max),
                forall|i: int| 0 <= i < out@.len() ==> (#[trigger] out@[i]).x < x,
                tiles_distinct(out@),
            decreases x_max + 1 - x,
        {
            let mut col = tile_column(x, y_min, y_max, z);
            let ghost prev = out@;
            let ghost colg = col@;
            out.append(&mut col);
            proof {
                assert forall|i: int| 0 <= i < out@.len() implies (#[trigger] out@[i]).x < x
                    + 1 by {
                    if i >= prev.len() {
                        assert(out@[i] == colg[i - prev.len()]);
                    }
                }
                assert forall|i: int, j: int|
                    0 <= i < j < out@.len() implies out@[i] != out@[j] by {
                    if j < prev.len() {
                        assert(prev[i] != prev[j]);
                    } else if i < prev.len() {
                        assert(out@[i].x < x && out@[j] == colg[j - prev.len()]);
                    } else {
                        assert(out@[i] == colg[i - prev.len()] && out@[j] == colg[j - prev.len()]);
                        assert(colg[i - prev.len()].y != colg[j - prev.len()].y);
                    }
                }
                assert forall|t: TileIndex| #[trigger]
                    out@.contains(t) <==> (t.z == z && x_min <= t.x < x + 1 && y_min <= t.y
                        <= y_max) by {
                    if out@.contains(t) {
                        let i = choose|i: int| 0 <= i < out@.len() && out@[i] == t;
                        if i < prev.len() {
                            assert(prev.contains(t));
                        } else {
                            assert(out@[i] == colg[i - prev.len()]);
                            assert(colg.contains(t));
                        }
                    } else {
                        if t.z == z && x_min <= t.x < x + 1 && y_min <= t.y <= y_max {
                            if t.x < x {
                                assert(prev.contains(t));
                                let i = choose|i: int| 0 <= i < prev.len() && prev[i] == t;
                                assert(out@[i] == t);
                                assert(out@.contains(t));
                            } else {
                                assert(colg.contains(t));
                                let i = choose|i: int| 0 <= i < colg.len() && colg[i] == t;
                                assert(out@[prev.len() + i] == t);
                                assert(out@.contains(t));
                            }
                        }
                    }
                }
            }
            x += 1;
        }
        Ok(out)
    }
}

/// A box edge, measured from the origin, sits well relative to the grid: on
/// a grid line, before one, or at least the tolerance past one.  Only an edge
/// strictly within the tolerance past a grid line is irregular; such an edge
/// is snapped back and a sliver of the box ends up outside every covering
/// tile.
pub open spec fn edge_regular(a: int, w: int, tol: int) -> bool {
    rem_trunc(a, w) <= 0 || rem_trunc(a, w) >= tol
}

/// On one axis: every coordinate of the box `[a_min, a_max]` falls within a
/// grid cell whose index the covering range holds.
proof fn lemma_axis_cover(a_min: int, a_max: int, w: int, tol: int, p: int)
    requires
        1 <= w,
        0 <= tol < w,
        a_min < a_max,
        a_min <= p <= a_max,
        edge_regular(a_max, w, tol),
    ensures
        exists|i: int|
            div_floor(a_min, w) <= i <= max_index(a_max, w, tol) && #[trigger] (i * w) <= p <= (i
                + 1) * w,
{
    let fp = div_floor(p, w);
    let rp = p % w;
    lemma_fundamental_div_mod(p, w);
    lemma_mod_bound(p, w);
    assert(fp * w == w * fp) by (nonlinear_arith);
    assert((fp + 1) * w == w * fp + w) by (nonlinear_arith);
    lemma_div_is_ordered(a_min, p, w);
    lemma_div_is_ordered(p, a_max, w);
    let fmax = div_floor(a_max, w);
    let m = max_index(a_max, w, tol);
    lemma_trunc_vs_floor(a_max, w);
    if rem_trunc(a_max, w) == 0 && tol >= 1 {
        // the edge lies on a grid line and is pulled in by one cell
        assert(m == fmax - 1);
        assert(a_max == w * fmax + 0);
        assert(fmax == div_trunc(a_max, w));
        assert(a_max == w * fmax) by (nonlinear_arith)
            requires
                rem_trunc(a_max, w) == 0 && a_max == w * div_trunc(a_max, w) + rem_trunc(a_max, w),
                fmax == div_trunc(a_max, w),
        ;
        if fp <= m {
            assert(div_floor(a_min, w) <= fp <= m && fp * w <= p <= (fp + 1) * w);
        } else {
            // p sits exactly on the pulled-in edge; the previous cell's upper
            // edge still touches it
            assert(fp == fmax);
            assert(w * fp <= p);
            assert(p == a_max);
            let i = fmax - 1;
            assert(i * w == w * fmax - w && (i + 1) * w == w * fmax) by (nonlinear_arith)
                requires
                    i == fmax - 1,
            ;
            assert(i * w <= p <= (i + 1) * w);
            // a_min is strictly below the grid line, so its cell starts lower
            assert(a_min <= w * fmax - 1);
            assert(w * fmax - 1 == w * (fmax - 1) + (w - 1)) by (nonlinear_arith);
            lemma_fundamental_div_mod_converse_div(w * fmax - 1, w, fmax - 1, w - 1);
            lemma_div_is_ordered(a_min, w * fmax - 1, w);
            assert(div_floor(a_min, w) <= i <= m && i * w <= p <= (i + 1) * w);
        }
    } else {
        // the maximum index is the flooring quotient itself
        assert(m == fmax);
        assert(div_floor(a_min, w) <= fp <= m && fp * w <= p <= (fp + 1) * w);
    }
}

/// On one axis: every grid cell of the covering range touches the box.
proof fn lemma_axis_intersect(a_min: int, a_max: int, w: int, tol: int, i: int)
    requires
        1 <= w,
        0 <= tol < w,
        div_floor(a_min, w) <= i <= max_index(a_max, w, tol),
    ensures
        i * w <= a_max,
        a_min <= (i + 1) * w,
{
    lemma_max_index_le_floor(a_max, w, tol);
    let fmax = div_floor(a_max, w);
    let fmin = div_floor(a_min, w);
    lemma_fundamental_div_mod(a_max, w);
    lemma_mod_bound(a_max, w);
    lemma_fundamental_div_mod(a_min, w);
    lemma_mod_bound(a_min, w);
    lemma_mul_inequality(i, fmax, w);
    assert(i * w <= fmax * w);
    assert(fmax * w == w * fmax) by (nonlinear_arith);
    assert(fmax * w <= a_max);
    lemma_mul_inequality(fmin + 1, i + 1, w);
    assert((fmin + 1) * w == w * fmin + w) by (nonlinear_arith);
    assert(a_min <= (fmin + 1) * w);
}

impl TileSchema {
    /// Every point of a non-degenerate box whose far edges sit regularly on
    /// the grid (on a grid line, or at least the tolerance past one) lies
    /// within the rectangle of some tile of the covering.  An edge strictly
    /// within the tolerance past a grid line is snapped back, and the sliver
    /// beyond it is deliberately left uncovered.
    pub proof fn lemma_tiles_covering_complete(
        self,
        bbox: Rect,
        z: u32,
        px: int,
        py: int,
    )
        requires
            self.wf(),
            self.spec_has_lod(z),
            bbox.bounded(),
            bbox.x_min < bbox.x_max,
            bbox.y_min < bbox.y_max,
            bbox.spec_contains(px, py),
            edge_regular(
                self.spec_x_adj(bbox.x_max as int),
                self.spec_tile_w(z),
                self.bounds_tolerance as int,
            ),
            edge_regular(
                self.spec_y_high_adj(bbox),
                self.spec_tile_h(z),
                self.bounds_tolerance as int,
            ),
        ensures
            exists|t: TileIndex|
                #[trigger] self.covering_contains(bbox, z, t) && self.spec_tile_contains_point(
                    t,
                    px,
                    py,
                ),
    {
        let w = self.spec_tile_w(z);
        let h = self.spec_tile_h(z);
        let tol = self.bounds_tolerance as int;
        self.lemma_spans_positive(z);
        // x axis, measured from the origin
        let ax_min = self.spec_x_adj(bbox.x_min as int);
        let ax_max = self.spec_x_adj(bbox.x_max as int);
        let apx = self.spec_x_adj(px);
        lemma_axis_cover(ax_min, ax_max, w, tol, apx);
        let ix = choose|i: int|
            div_floor(ax_min, w) <= i <= max_index(ax_max, w, tol) && #[trigger] (i * w) <= apx
                <= (i + 1) * w;
        // y axis, measured in the direction rows grow
        let ay_low = self.spec_y_low_adj(bbox);
        let ay_high = self.spec_y_high_adj(bbox);
        let apy = self.spec_y_adj(py);
        lemma_axis_cover(ay_low, ay_high, h, tol, apy);
        let iy = choose|i: int|
            div_floor(ay_low, h) <= i <= max_index(ay_high, h, tol) && #[trigger] (i * h) <= apy
                <= (i + 1) * h;
        lemma_div_floor_bounds(ax_min, w, 0x2000_0000_0000_0000);
        lemma_div_floor_bounds(ay_low, h, 0x2000_0000_0000_0000);
        lemma_max_index_le_floor(ax_max, w, tol);
        lemma_div_floor_bounds(ax_max, w, 0x2000_0000_0000_0000);
        lemma_max_index_le_floor(ay_high, h, tol);
        lemma_div_floor_bounds(ay_high, h, 0x2000_0000_0000_0000);
        let t = TileIndex { x: ix as i64, y: iy as i64, z };
        assert(t.x == ix && t.y == iy);
        assert(self.covering_contains(bbox, z, t));
        assert(self.spec_tile_x_lo(t) <= px <= self.spec_tile_x_hi(t));
        match self.y_direction {
            VerticalDirection::TopToBottom => {
                assert(self.spec_tile_y_lo(t) <= py <= self.spec_tile_y_hi(t));
            },
            VerticalDirection::BottomToTop => {
                assert(self.spec_tile_y_lo(t) <= py <= self.spec_tile_y_hi(t));
            },
        }
        assert(self.covering_contains(bbox, z, t) && self.spec_tile_contains_point(t, px, py));
    }

    /// The rectangle of every tile the covering yields touches the queried
    /// box.
    pub proof fn lemma_tiles_covering_intersect(self, bbox: Rect, z: u32, t: TileIndex)
        requires
            self.wf(),
            self.spec_has_lod(z),
            self.covering_contains(bbox, z, t),
        ensures
            self.spec_tile_meets_rect(t, bbox),
    {
        let w = self.spec_tile_w(z);
        let h = self.spec_tile_h(z);
        let tol = self.bounds_tolerance as int;
        self.lemma_spans_positive(z);
        lemma_axis_intersect(
            self.spec_x_adj(bbox.x_min as int),
            self.spec_x_adj(bbox.x_max as int),
            w,
            tol,
            t.x as int,
        );
        lemma_axis_intersect(self.spec_y_low_adj(bbox), self.spec_y_high_adj(bbox), h, tol, t.y as int);
    }

    /// With a level present and the schema well formed, both tile extents are
    /// positive and exceed the tolerance.
    pub proof fn lemma_spans_positive(self, z: u32)
        requires
            self.wf(),
            self.spec_has_lod(z),
        ensures
            1 <= self.spec_resolution(z),
            self.spec_resolution(z) <= self.spec_tile_w(z) <= SPAN_LIMIT,
            self.spec_resolution(z) <= self.spec_tile_h(z) <= SPAN_LIMIT,
            self.bounds_tolerance < self.spec_resolution(z),
    {
        let i = choose|i: int| 0 <= i < self.lods@.len() && (#[trigger] self.lods@[i]).level == z;
        assert(1 <= self.lods@[i].resolution);
        assert(self.lods@[i].resolution * self.tile_width <= SPAN_LIMIT);
        assert(self.lods@[i].resolution * self.tile_height <= SPAN_LIMIT);
        assert(self.bounds_tolerance < self.lods@[i].resolution);
        let res = self.spec_resolution(z) as int;
        assert(res <= res * self.tile_width && res <= res * self.tile_height) by (nonlinear_arith)
            requires
                1 <= res,
                1 <= self.tile_width,
                1 <= self.tile_height,
        ;
    }
}

/// Builds the column of tile indices `(x, y_min ..= y_max, z)`, one per row
/// in row order.
fn tile_column(x: i64, y_min: i64, y_max: i64, z: u32) -> (v: Vec<TileIndex>)
    requires
        y_min <= y_max,
        -0x8000_0000_0000_0000 <= y_min,
        y_max < 0x7fff_ffff_ffff_ffff,
    ensures
        forall|t: TileIndex|
            #[trigger] v@.contains(t) <==> (t.x == x && y_min <= t.y <= y_max && t.z == z),
        v@.len() == y_max - y_min + 1,
        forall|i: int|
            0 <= i < v@.len() ==> #[trigger] v@[i] == (TileIndex {
                x,
                y: (y_min + i) as i64,
                z,
            }),
{
    let mut v: Vec<TileIndex> = Vec::new();
    let mut y = y_min;
    while y <= y_max
        invariant
            y_min <= y <= y_max + 1,
            y_max < 0x7fff_ffff_ffff_ffff,
            v@.len() == y - y_min,
            forall|i: int|
                0 <= i < v@.len() ==> #[trigger] v@[i] == (TileIndex {
                    x,
                    y: (y_min + i) as i64,
                    z,
                }),
            forall|t: TileIndex|
                #[trigger] v@.contains(t) <==> (t.x == x && y_min <= t.y < y && t.z == z),
        decreases y_max + 1 - y,
    {
        let ghost prev = v@;
        v.push(TileIndex { x, y, z });
        proof {
            assert forall|t: TileIndex| #[trigger]
                v@.contains(t) <==> (t.x == x && y_min <= t.y < y + 1 && t.z == z) by {
                if v@.contains(t) {
                    let i = choose|i: int| 0 <= i < v@.len() && v@[i] == t;
                    if i < prev.len() {
                        assert(prev.contains(t));
                    }
                } else {
                    if t.x == x && y_min <= t.y < y + 1 && t.z == z {
                        if t.y < y {
                            assert(prev.contains(t));
                            let i = choose|i: int| 0 <= i < prev.len() && prev[i] == t;
                            assert(v@[i] == t);
                        } else {
                            assert(v@[v@.len() - 1] == t);
                        }
                    }
                }
            }
        }
        y += 1;
    }
    v
}

} // verus!
