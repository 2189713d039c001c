//! Tile addressing and coordinate transforms.
//!
//! A tile address is a zoom level together with a column and a row; at
//! zoom `z` the world is a `2^z x 2^z` grid of tiles.  World positions
//! are held in fixed point: a coordinate in `[0, 1)` is stored as a
//! `u64` numerator over the denominator `2^32` (`WORLD_ONE`).  The
//! transform between a tile's local `[0, extent]` space and world space
//! is an exact rational map, so applying it and then its inverse
//! recovers the original tile-local point exactly.

use vstd::prelude::*;

verus! {

/// Highest zoom level a tile address may carry.
pub const MAX_ZOOM: u8 = 22;

/// World coordinates are numerators over this denominator: 2^32.
pub const WORLD_ONE: u64 = 0x1_0000_0000;

/// 2^z as a mathematical natural.
pub open spec fn pow2z(z: nat) -> nat
    decreases z,
{
    if z == 0 {
        1nat
    } else {
        2 * pow2z((z - 1) as nat)
    }
}

/// The grid sizes the contracts mention, as plain numbers.
pub proof fn lemma_pow2z_values()
    ensures
        pow2z(22) == 0x40_0000,
        pow2z(32) == 0x1_0000_0000,
        pow2z(40) == 0x100_0000_0000,
{
    reveal_with_fuel(pow2z, 41);
}

pub proof fn lemma_pow2z_monotone(a: nat, b: nat)
    requires
        a <= b,
    ensures
        pow2z(a) <= pow2z(b),
    decreases b,
{
    if a < b {
        lemma_pow2z_monotone(a, (b - 1) as nat);
    }
}

/// 2^z, computed by repeated doubling.
pub fn pow2_u64(z: u8) -> (r: u64)
    requires
        z <= 40,
    ensures
        r == pow2z(z as nat),
        r >= 1,
{
    let mut r: u64 = 1;
    let mut i: u8 = 0;
    while i < z
        invariant
            i <= z <= 40,
            1 <= r == pow2z(i as nat),
        decreases z - i,
    {
        proof {
            lemma_pow2z_monotone((i + 1) as nat, 40);
            lemma_pow2z_values();
        }
        r = r * 2;
        i = i + 1;
    }
    r
}

/// Address of one map tile: zoom level, column and row.
#[derive(Clone, Copy, Debug, PartialEq, Eq, Structural)]
pub struct TileId {
    pub zoom: u8,
    pub x: u32,
    pub y: u32,
}

impl TileId {
    /// A valid address: the zoom is in range and the column and row lie
    /// on the `2^zoom x 2^zoom` grid.
    pub open spec fn valid(self) -> bool {
        self.zoom <= MAX_ZOOM && self.x < pow2z(self.zoom as nat) && self.y < pow2z(
            self.zoom as nat,
        )
    }

    /// Strict lexicographic order on (zoom, x, y); the deterministic
    /// tie-break used by cache eviction.
    pub open spec fn lex_less(self, other: TileId) -> bool {
        self.zoom < other.zoom || (self.zoom == other.zoom && (self.x < other.x || (self.x
            == other.x && self.y < other.y)))
    }

    /// The only valid addresses are accepted.
    pub fn new(zoom: u8, x: u32, y: u32) -> (r: Option<TileId>)
        ensures
            r is Some <==> (TileId { zoom, x, y }).valid(),
            r is Some ==> r->0 == (TileId { zoom, x, y }),
    {
        if zoom > MAX_ZOOM {
            return None;
        }
        let n = pow2_u64(zoom);
        if (x as u64) < n && (y as u64) < n {
            Some(TileId { zoom, x, y })
        } else {
            None
        }
    }

    pub fn is_valid(&self) -> (r: bool)
        ensures
            r == self.valid(),
    {
        if self.zoom > MAX_ZOOM {
            return false;
        }
        let n = pow2_u64(self.zoom);
        (self.x as u64) < n && (self.y as u64) < n
    }
}

/// The exact affine map from a tile's local `[0, extent]` space into
/// world space.  A local point `(lx, ly)` maps to the world point with
/// numerators `(tx + lx, ty + ly)` over the denominator `den`, where
/// `den == extent * 2^zoom`.
#[derive(Clone, Copy, Debug, PartialEq, Eq, Structural)]
pub struct TileTransform {
    pub tx: u64,
    pub ty: u64,
    pub extent: u32,
    pub den: u64,
}

impl TileTransform {
    pub open spec fn wf(self) -> bool {
        &&& 1 <= self.extent <= 65536
        &&& self.tx + self.extent <= self.den
        &&& self.ty + self.extent <= self.den
        &&& self.den <= 0x40_0000_0000_0000
    }

    /// Where a tile-local point lands in world space: numerators over `den`.
    pub open spec fn spec_to_global(self, lx: int, ly: int) -> (int, int) {
        (self.tx + lx, self.ty + ly)
    }

    /// The inverse map: accepts exactly the world points inside the tile.
    pub open spec fn spec_to_tile(self, gx: int, gy: int) -> Option<(int, int)> {
        if self.tx <= gx <= self.tx + self.extent && self.ty <= gy <= self.ty + self.extent {
            Some((gx - self.tx, gy - self.ty))
        } else {
            None
        }
    }
}

impl TileTransform {
    /// Map a tile-local point into world space.
    pub fn to_global(&self, lx: u32, ly: u32) -> (g: (u64, u64))
        requires
            self.wf(),
            lx <= self.extent,
            ly <= self.extent,
        ensures
            (g.0 as int, g.1 as int) == self.spec_to_global(lx as int, ly as int),
    {
        (self.tx + lx as u64, self.ty + ly as u64)
    }

    /// Map a world point back into this tile's local space; accepts
    /// exactly the points inside the tile.
    pub fn to_tile(&self, gx: u64, gy: u64) -> (r: Option<(u32, u32)>)
        requires
            self.wf(),
        ensures
            (match r {
                Some(l) => self.spec_to_tile(gx as int, gy as int) == Some((l.0 as int, l.1 as int)),
                None => self.spec_to_tile(gx as int, gy as int) is None,
            }),
    {
        if self.tx <= gx && gx <= self.tx + self.extent as u64 && self.ty <= gy && gy <= self.ty
            + self.extent as u64 {
            Some(((gx - self.tx) as u32, (gy - self.ty) as u32))
        } else {
            None
        }
    }
}

/// The tile-to-global transform followed by its inverse recovers the
/// original tile-local point exactly, for every point of the tile.
pub proof fn lemma_tile_space_round_trip(t: TileTransform, lx: int, ly: int)
    requires
        t.wf(),
        0 <= lx <= t.extent,
        0 <= ly <= t.extent,
    ensures
        t.spec_to_tile(t.spec_to_global(lx, ly).0, t.spec_to_global(lx, ly).1) == Some((lx, ly)),
{
}

/// Viewport state: size in pixels, the on-screen size of one tile, and
/// the camera centre as a fixed-point world position (numerators over
/// `WORLD_ONE`).
#[derive(Clone, Copy, Debug, PartialEq, Eq, Structural)]
pub struct Screen {
    pub width: u32,
    pub height: u32,
    pub tile_size: u32,
    pub center_x: u64,
    pub center_y: u64,
}

impl Screen {
    pub open spec fn wf(self) -> bool {
        &&& 1 <= self.tile_size <= 65536
        &&& self.width <= 65536
        &&& self.height <= 65536
        &&& self.center_x < WORLD_ONE
        &&& self.center_y < WORLD_ONE
    }

    /// Index of the tile column under the camera centre at this zoom.
    pub open spec fn center_tile_x(self, zoom: u8) -> int {
        self.center_x as int / pow2z((32 - zoom) as nat) as int
    }

    pub open spec fn center_tile_y(self, zoom: u8) -> int {
        self.center_y as int / pow2z((32 - zoom) as nat) as int
    }

    /// How many tile columns the viewport reaches to each side of the
    /// centre column, `padding` extra tiles included.
    pub open spec fn half_span_x(self, padding: u32) -> int {
        self.width as int / (2 * self.tile_size as int) + 1 + padding
    }

    pub open spec fn half_span_y(self, padding: u32) -> int {
        self.height as int / (2 * self.tile_size as int) + 1 + padding
    }

    pub open spec fn min_tile_x(self, zoom: u8, padding: u32) -> int {
        if self.center_tile_x(zoom) >= self.half_span_x(padding) {
            self.center_tile_x(zoom) - self.half_span_x(padding)
        } else {
            0
        }
    }

    pub open spec fn max_tile_x(self, zoom: u8, padding: u32) -> int {
        if self.center_tile_x(zoom) + self.half_span_x(padding) < pow2z(zoom as nat) {
            self.center_tile_x(zoom) + self.half_span_x(padding)
        } else {
            pow2z(zoom as nat) - 1
        }
    }

    pub open spec fn min_tile_y(self, zoom: u8, padding: u32) -> int {
        if self.center_tile_y(zoom) >= self.half_span_y(padding) {
            self.center_tile_y(zoom) - self.half_span_y(padding)
        } else {
            0
        }
    }

    pub open spec fn max_tile_y(self, zoom: u8, padding: u32) -> int {
        if self.center_tile_y(zoom) + self.half_span_y(padding) < pow2z(zoom as nat) {
            self.center_tile_y(zoom) + self.half_span_y(padding)
        } else {
            pow2z(zoom as nat) - 1
        }
    }

    /// The exact transform for one tile: local `[0, extent]` space to
    /// fixed-point world space.
    pub fn tile_to_global_space(&self, tile: &TileId, extent: u32) -> (t: TileTransform)
        requires
            tile.valid(),
            1 <= extent <= 65536,
        ensures
            t.wf(),
            t.extent == extent,
            t.tx == tile.x * extent,
            t.ty == tile.y * extent,
            t.den == extent * pow2z(tile.zoom as nat),
    {
        proof {
            lemma_pow2z_monotone(tile.zoom as nat, 22);
            lemma_pow2z_values();
        }
        let n = pow2_u64(tile.zoom);
        proof {
            assert(tile.x * extent + extent <= pow2z(tile.zoom as nat) * extent) by (nonlinear_arith)
                requires
                    tile.x < pow2z(tile.zoom as nat),
                    extent >= 1,
            ;
            assert(tile.y * extent + extent <= pow2z(tile.zoom as nat) * extent) by (nonlinear_arith)
                requires
                    tile.y < pow2z(tile.zoom as nat),
                    extent >= 1,
            ;
            assert(extent * pow2z(tile.zoom as nat) <= 65536 * 0x40_0000) by (nonlinear_arith)
                requires
                    extent <= 65536,
                    pow2z(tile.zoom as nat) <= 0x40_0000,
            ;
        }
        let t = TileTransform {
            tx: (tile.x as u64) * (extent as u64),
            ty: (tile.y as u64) * (extent as u64),
            extent,
            den: (extent as u64) * n,
        };
        t
    }

    /// Every tile address whose tile intersects the viewport at this
    /// zoom, expanded by `padding` tiles on each side and clamped to the
    /// valid grid.  Each address appears exactly once, in row-major
    /// order.
    pub fn get_tile_boundaries_for_zoom_level(&self, zoom: u8, padding: u32) -> (v: Vec<TileId>)
        requires
            self.wf(),
            zoom <= MAX_ZOOM,
            padding <= 1024,
        ensures
            forall|k: int|
                0 <= k < v@.len() ==> (#[trigger] v@[k]).valid() && v@[k].zoom == zoom
                    && self.min_tile_x(zoom, padding) <= v@[k].x <= self.max_tile_x(zoom, padding)
                    && self.min_tile_y(zoom, padding) <= v@[k].y <= self.max_tile_y(zoom, padding),
            forall|xi: u32, yi: u32|
                self.min_tile_x(zoom, padding) <= xi <= self.max_tile_x(zoom, padding)
                    && self.min_tile_y(zoom, padding) <= yi <= self.max_tile_y(zoom, padding)
                    ==> #[trigger] v@.contains(TileId { zoom, x: xi, y: yi }),
            forall|k1: int, k2: int|
                0 <= k1 < k2 < v@.len() ==> #[trigger] v@[k1].lex_less(#[trigger] v@[k2]),
            forall|k1: int, k2: int| 0 <= k1 < k2 < v@.len() ==> v@[k1] != v@[k2],
    {
        proof {
            lemma_pow2z_monotone(zoom as nat, 22);
            lemma_pow2z_monotone((32 - zoom) as nat, 32);
            lemma_pow2z_values();
        }
        let cell = pow2_u64(32 - zoom);
        let n = pow2_u64(zoom);
        let cx64 = self.center_x / cell;
        let cy64 = self.center_y / cell;
        proof {
            lemma_pow2z_add((32 - zoom) as nat, zoom as nat);
            assert(self.center_x / cell < n) by (nonlinear_arith)
                requires
                    cell * n == 0x1_0000_0000,
                    self.center_x < 0x1_0000_0000u64,
                    cell >= 1,
                    n >= 1,
            ;
            assert(self.center_y / cell < n) by (nonlinear_arith)
                requires
                    cell * n == 0x1_0000_0000,
                    self.center_y < 0x1_0000_0000u64,
                    cell >= 1,
                    n >= 1,
            ;
        }
        let cx = cx64 as u32;
        let cy = cy64 as u32;
        let half_x: u32 = self.width / (2 * self.tile_size) + 1 + padding;
        let half_y: u32 = self.height / (2 * self.tile_size) + 1 + padding;
        let x0: u32 = if cx >= half_x {
            cx - half_x
        } else {
            0
        };
        let x1: u32 = if (cx as u64) + (half_x as u64) < n {
            cx + half_x
        } else {
            (n - 1) as u32
        };
        let y0: u32 = if cy >= half_y {
            cy - half_y
        } else {
            0
        };
        let y1: u32 = if (cy as u64) + (half_y as u64) < n {
            cy + half_y
        } else {
            (n - 1) as u32
        };
        assert(x0 == self.min_tile_x(zoom, padding));
        assert(x1 == self.max_tile_x(zoom, padding));
        assert(y0 == self.min_tile_y(zoom, padding));
        assert(y1 == self.max_tile_y(zoom, padding));
        let mut v: Vec<TileId> = Vec::new();
        let mut x: u32 = x0;
        while x <= x1
        invariant
            x0 <= x <= x1 + 1,
            x0 <= x1 < pow2z(zoom as nat),
            y0 <= y1 < pow2z(zoom as nat),
            zoom <= MAX_ZOOM,
            pow2z(zoom as nat) <= 0x40_0000,
            forall|k: int|
                0 <= k < v@.len() ==> (#[trigger] v@[k]).valid() && v@[k].zoom == zoom && x0
                    <= v@[k].x < x && y0 <= v@[k].y <= y1,
            forall|xi: u32, yi: u32|
                x0 <= xi < x && y0 <= yi <= y1 ==> #[trigger] v@.contains(
                    TileId { zoom, x: xi, y: yi },
                ),
            forall|k1: int, k2: int|
                0 <= k1 < k2 < v@.len() ==> #[trigger] v@[k1].lex_less(#[trigger] v@[k2]),
        decreases x1 + 1 - x,
        {
            let mut y: u32 = y0;
            while y <= y1
            invariant
                x0 <= x <= x1 < pow2z(zoom as nat),
                y0 <= y <= y1 + 1,
                y0 <= y1 < pow2z(zoom as nat),
                zoom <= MAX_ZOOM,
                pow2z(zoom as nat) <= 0x40_0000,
                forall|k: int|
                    0 <= k < v@.len() ==> (#[trigger] v@[k]).valid() && v@[k].zoom == zoom && x0
                        <= v@[k].x <= x && y0 <= v@[k].y <= y1 && (v@[k].x < x || v@[k].y < y),
                forall|xi: u32, yi: u32|
                    x0 <= xi < x && y0 <= yi <= y1 ==> #[trigger] v@.contains(
                        TileId { zoom, x: xi, y: yi },
                    ),
                forall|yi: u32|
                    y0 <= yi < y ==> #[trigger] v@.contains(TileId { zoom, x, y: yi }),
                forall|k1: int, k2: int|
                    0 <= k1 < k2 < v@.len() ==> #[trigger] v@[k1].lex_less(#[trigger] v@[k2]),
            decreases y1 + 1 - y,
            {
                let id = TileId { zoom, x, y };
                let ghost old_v = v@;
                v.push(id);
                proof {
                    assert(forall|k: int|
                        0 <= k < old_v.len() ==> old_v[k] == v@[k] && #[trigger] v@[k].lex_less(
                            id,
                        ));
                    assert(forall|xi: u32, yi: u32|
                        x0 <= xi < x && y0 <= yi <= y1 ==> #[trigger] v@.contains(
                            TileId { zoom, x: xi, y: yi },
                        )) by {
                        assert(forall|t: TileId| old_v.contains(t) ==> #[trigger] v@.contains(t))
                            by {
                            assert(forall|k: int|
                                0 <= k < old_v.len() ==> v@[k] == #[trigger] old_v[k]);
                        }
                    }
                    assert(forall|yi: u32|
                        y0 <= yi < y + 1 ==> #[trigger] v@.contains(TileId { zoom, x, y: yi })) by {
                        assert(forall|t: TileId| old_v.contains(t) ==> #[trigger] v@.contains(t))
                            by {
                            assert(forall|k: int|
                                0 <= k < old_v.len() ==> v@[k] == #[trigger] old_v[k]);
                        }
                        assert(v@[v@.len() - 1] == id);
                        assert(v@.contains(id));
                    }
                }
                y = y + 1;
            }
            x = x + 1;
        }
        proof {
            assert forall|k1: int, k2: int| 0 <= k1 < k2 < v@.len() implies v@[k1] != v@[k2] by {
                assert(v@[k1].lex_less(v@[k2]));
            }
        }
        v
    }
}

pub proof fn lemma_pow2z_add(a: nat, b: nat)
    ensures
        pow2z(a) * pow2z(b) == pow2z(a + b),
    decreases a,
{
    if a == 0 {
        assert(pow2z(a) == 1);
        assert(a + b == b);
    } else {
        lemma_pow2z_add((a - 1) as nat, b);
        assert(pow2z((a - 1) as nat) * pow2z(b) == pow2z((a - 1) as nat + b));
        assert(pow2z(a) == 2 * pow2z((a - 1) as nat));
        assert(pow2z(a) * pow2z(b) == 2 * (pow2z((a - 1) as nat) * pow2z(b))) by (nonlinear_arith)
            requires
                pow2z(a) == 2 * pow2z((a - 1) as nat),
        ;
        assert((a + b - 1) as nat == (a - 1) as nat + b);
        assert(pow2z(a + b) == 2 * pow2z((a + b - 1) as nat));
        assert(pow2z(a) * pow2z(b) == pow2z(a + b));
    }
}

/// Which tile a world point falls in at a zoom level, and the point's
/// tile-local coordinates in that tile's `[0, extent)` space.
pub fn locate_world_point(gx: u64, gy: u64, zoom: u8, extent: u32) -> (r: (TileId, u32, u32))
    requires
        gx < WORLD_ONE,
        gy < WORLD_ONE,
        zoom <= MAX_ZOOM,
        1 <= extent <= 65536,
    ensures
        r.0.valid(),
        r.0.zoom == zoom,
        r.0.x == gx as int / pow2z((32 - zoom) as nat) as int,
        r.0.y == gy as int / pow2z((32 - zoom) as nat) as int,
        r.1 == (gx as int % pow2z((32 - zoom) as nat) as int) * extent / pow2z(
            (32 - zoom) as nat,
        ) as int,
        r.2 == (gy as int % pow2z((32 - zoom) as nat) as int) * extent / pow2z(
            (32 - zoom) as nat,
        ) as int,
        r.1 < extent,
        r.2 < extent,
{
    proof {
        lemma_pow2z_monotone(zoom as nat, 22);
        lemma_pow2z_monotone((32 - zoom) as nat, 32);
        lemma_pow2z_values();
        lemma_pow2z_add((32 - zoom) as nat, zoom as nat);
    }
    let cell = pow2_u64(32 - zoom);
    let n = pow2_u64(zoom);
    let tx = gx / cell;
    let ty = gy / cell;
    let rx = gx % cell;
    let ry = gy % cell;
    proof {
        assert(gx / cell < n && gy / cell < n) by (nonlinear_arith)
            requires
                cell * n == 0x1_0000_0000,
                gx < 0x1_0000_0000u64,
                gy < 0x1_0000_0000u64,
                cell >= 1,
                n >= 1,
        ;
        assert(rx < cell && ry < cell);
        assert(rx * extent < 0x1_0000_0000 * 0x1_0000) by (nonlinear_arith)
            requires
                rx < 0x1_0000_0000u64,
                extent <= 0x1_0000u32,
        ;
        assert(ry * extent < 0x1_0000_0000 * 0x1_0000) by (nonlinear_arith)
            requires
                ry < 0x1_0000_0000u64,
                extent <= 0x1_0000u32,
        ;
        assert((rx as int * extent as int) / (cell as int) < extent as int) by (nonlinear_arith)
            requires
                rx < cell,
                cell >= 1,
                extent >= 1,
        ;
        assert((ry as int * extent as int) / (cell as int) < extent as int) by (nonlinear_arith)
            requires
                ry < cell,
                cell >= 1,
                extent >= 1,
        ;
    }
    let lx = (rx * (extent as u64)) / cell;
    let ly = (ry * (extent as u64)) / cell;
    (TileId { zoom, x: tx as u32, y: ty as u32 }, lx as u32, ly as u32)
}

} // verus!
