//! GPU vertex construction: quantized positions, extruded stroke
//! normals and packed feature identifiers.
//!
//! Normals are held in fixed point, in units of 1/256 of a tile-local
//! unit (`FIX_ONE`).  A stroke normal is clamped so that its length
//! never exceeds a fixed limit (8 units for line strokes, 3 for
//! polygon-derived strokes), which bounds the worst-case miter spike at
//! a sharp corner.  The clamp rescales the whole vector, so the
//! direction is preserved up to integer rounding: the cross product of
//! the clamped and the original normal is bounded by the sum of the
//! original's component magnitudes, and no component changes sign.
//! The clamped normal is scaled by the tile's extent and saturated into
//! the 16-bit range before quantization.

use vstd::prelude::*;
use crate::math::TileId;

verus! {

/// One fixed-point unit: normals are stored in 1/256ths.
pub const FIX_ONE: u32 = 256;

/// Stroke-normal length limit for line strokes: 8 units.
pub const LINE_NORMAL_LIMIT: u32 = 2048;

/// Stroke-normal length limit for polygon-derived strokes: 3 units.
pub const POLYGON_NORMAL_LIMIT: u32 = 768;

/// Largest normal component the tessellator may hand in.
pub const MAX_NORMAL: i32 = 0x100_0000;

/// The class a vertex belongs to, packed into its feature id.
#[derive(Clone, Copy, Debug, PartialEq, Eq, Structural)]
pub enum VertexType {
    Polygon,
    Line,
}

/// The numeric tag a vertex class is packed as.
pub open spec fn spec_vertex_type_code(vt: VertexType) -> u32 {
    match vt {
        VertexType::Polygon => 0,
        VertexType::Line => 1,
    }
}

/// One GPU vertex: quantized position, quantized extruded normal, and
/// the feature id with the vertex class in its high 16 bits.
#[derive(Clone, Copy, Debug, PartialEq, Eq)]
pub struct Vertex {
    pub position: [i16; 2],
    pub normal: [i16; 2],
    pub feature_id: u32,
}

/// Magnitude of an integer.
pub open spec fn iabs(x: int) -> int {
    if x < 0 {
        -x
    } else {
        x
    }
}

/// Saturation into the signed 16-bit range.
pub open spec fn sat_i16(x: int) -> int {
    if x < -32768 {
        -32768
    } else if x > 32767 {
        32767
    } else {
        x
    }
}

/// Whether `r` is the ceiling of the square root of `n`.
pub open spec fn is_sqrt_ceil(n: int, r: int) -> bool {
    1 <= r && (r - 1) * (r - 1) < n && n <= r * r
}

/// The ceiling of the square root: the unique `r >= 1` with
/// `(r - 1)^2 < n <= r^2`.
pub open spec fn sp_sqrt_ceil(n: int) -> int
    recommends
        n >= 1,
{
    choose|r: int| is_sqrt_ceil(n, r)
}

/// The ceiling square root is unique.
pub proof fn lemma_sqrt_ceil_unique(n: int, r1: int, r2: int)
    requires
        1 <= r1,
        (r1 - 1) * (r1 - 1) < n <= r1 * r1,
        1 <= r2,
        (r2 - 1) * (r2 - 1) < n <= r2 * r2,
    ensures
        r1 == r2,
{
    if r1 < r2 {
        assert(r1 * r1 <= (r2 - 1) * (r2 - 1)) by (nonlinear_arith)
            requires
                1 <= r1,
                r1 < r2,
        ;
    }
    if r2 < r1 {
        assert(r2 * r2 <= (r1 - 1) * (r1 - 1)) by (nonlinear_arith)
            requires
                1 <= r2,
                r2 < r1,
        ;
    }
}

/// One component of a clamped vector: its magnitude rescaled by
/// `limit / u` (rounded down), with its sign restored.
pub open spec fn spec_clamp_component(c: int, limit: int, u: int) -> int
    recommends
        u >= 1,
{
    if c < 0 {
        -(iabs(c) * limit / u)
    } else {
        iabs(c) * limit / u
    }
}

/// What the clamp produces: the vector itself while its length is
/// within the limit, else the vector rescaled to the limit.
pub open spec fn spec_clamp(nx: int, ny: int, limit: int) -> (int, int) {
    let len2 = nx * nx + ny * ny;
    if len2 <= limit * limit {
        (nx, ny)
    } else {
        let u = sp_sqrt_ceil(len2);
        (spec_clamp_component(nx, limit, u), spec_clamp_component(ny, limit, u))
    }
}

pub fn vertex_type_code(vt: VertexType) -> (r: u32)
    ensures
        r == spec_vertex_type_code(vt),
{
    match vt {
        VertexType::Polygon => 0,
        VertexType::Line => 1,
    }
}

/// The feature id of a vertex: the class tag in the high 16 bits, the
/// feature's index in the low 16.
pub fn pack_feature_id(vt: VertexType, feature_index: u32) -> (r: u32)
    requires
        feature_index < 0x10000,
    ensures
        r == spec_vertex_type_code(vt) * 0x10000 + feature_index,
{
    vertex_type_code(vt) * 0x10000 + feature_index
}

/// Floor of the square root.
pub fn isqrt(n: u64) -> (r: u64)
    requires
        n < 0x4000_0000_0000_0000,
    ensures
        r * r <= n,
        (r + 1) * (r + 1) > n,
        r < 0x8000_0000,
{
    let mut lo: u64 = 0;
    let mut hi: u64 = 0x8000_0000;
    proof {
        assert(hi * hi > n) by (nonlinear_arith)
            requires
                hi == 0x8000_0000u64,
                n < 0x4000_0000_0000_0000,
        ;
    }
    while lo + 1 < hi
        invariant
            lo < hi <= 0x8000_0000,
            lo * lo <= n,
            hi * hi > n,
        decreases hi - lo,
    {
        let mid = lo + (hi - lo) / 2;
        proof {
            assert(mid * mid <= 0x8000_0000u64 * 0x8000_0000u64) by (nonlinear_arith)
                requires
                    mid <= 0x8000_0000u64,
            ;
        }
        if mid * mid <= n {
            lo = mid;
        } else {
            hi = mid;
        }
    }
    lo
}

/// Ceiling of the square root.
pub fn isqrt_ceil(n: u64) -> (r: u64)
    requires
        1 <= n < 0x4000_0000_0000_0000,
    ensures
        r * r >= n,
        (r - 1) * (r - 1) < n,
        1 <= r <= 0x8000_0000,
        r == sp_sqrt_ceil(n as int),
{
    let f = isqrt(n);
    proof {
        if f == 0 {
            assert((f + 1) * (f + 1) == 1) by (nonlinear_arith)
                requires
                    f == 0u64,
            ;
        }
        assert(f >= 1);
    }
    let r: u64 = if f * f == n {
        proof {
            assert((f - 1) * (f - 1) < f * f) by (nonlinear_arith)
                requires
                    f >= 1u64,
            ;
        }
        f
    } else {
        proof {
            assert(f * f < n);
        }
        f + 1
    };
    proof {
        assert(is_sqrt_ceil(n as int, r as int));
        assert(exists|x: int| is_sqrt_ceil(n as int, x)) by {
            assert(is_sqrt_ceil(n as int, r as int));
        }
        assert(is_sqrt_ceil(n as int, sp_sqrt_ceil(n as int)));
        lemma_sqrt_ceil_unique(n as int, r as int, sp_sqrt_ceil(n as int));
    }
    r
}

/// Clamp a fixed-point stroke normal to a length limit, preserving its
/// direction.  When the squared length is within the squared limit the
/// vector is returned unchanged; otherwise the whole vector is rescaled
/// so that:
/// - the clamped squared length never exceeds the squared limit,
/// - no component changes sign, no magnitude grows, and
/// - the direction is unchanged up to rounding: the cross product of
///   the clamped and original vectors is at most `|nx| + |ny|`, while
///   the vectors themselves scale with `limit`.
pub fn clamp_normal(nx: i32, ny: i32, limit: u32) -> (r: (i32, i32))
    requires
        -MAX_NORMAL <= nx <= MAX_NORMAL,
        -MAX_NORMAL <= ny <= MAX_NORMAL,
        1 <= limit <= 0x10000,
    ensures
        (r.0 as int, r.1 as int) == spec_clamp(nx as int, ny as int, limit as int),
        r.0 * r.0 + r.1 * r.1 <= limit * limit,
        iabs(r.0 as int) <= limit && iabs(r.1 as int) <= limit,
        nx * nx + ny * ny <= limit * limit ==> r == (nx, ny),
        nx * nx + ny * ny > limit * limit ==> {
            &&& r.0 * nx >= 0
            &&& r.1 * ny >= 0
            &&& iabs(r.0 as int) <= iabs(nx as int)
            &&& iabs(r.1 as int) <= iabs(ny as int)
            &&& iabs(r.0 * ny - r.1 * nx) <= iabs(nx as int) + iabs(ny as int)
        },
{
    let ax: u64 = if nx < 0 {
        (-(nx as i64)) as u64
    } else {
        nx as u64
    };
    let ay: u64 = if ny < 0 {
        (-(ny as i64)) as u64
    } else {
        ny as u64
    };
    proof {
        assert(ax * ax <= 0x100_0000u64 * 0x100_0000u64 && ay * ay <= 0x100_0000u64
            * 0x100_0000u64) by (nonlinear_arith)
            requires
                ax <= 0x100_0000u64,
                ay <= 0x100_0000u64,
        ;
    }
    let len2: u64 = ax * ax + ay * ay;
    proof {
        assert((limit as u64) * (limit as u64) <= 0x10000u64 * 0x10000u64) by (nonlinear_arith)
            requires
                limit <= 0x10000u32,
        ;
    }
    let lim2: u64 = (limit as u64) * (limit as u64);
    proof {
        assert(len2 == nx as int * nx as int + ny as int * ny as int) by (nonlinear_arith)
            requires
                ax == iabs(nx as int),
                ay == iabs(ny as int),
                len2 == ax * ax + ay * ay,
        ;
    }
    if len2 <= lim2 {
        proof {
            lemma_sqrt_component_le(ax as int, ay as int, limit as int, len2 as int);
            lemma_sqrt_component_le(ay as int, ax as int, limit as int, len2 as int);
        }
        return (nx, ny);
    }
    let u = isqrt_ceil(len2);
    proof {
        lemma_sqrt_component_le(ax as int, ay as int, u as int, len2 as int);
        lemma_sqrt_component_le(ay as int, ax as int, u as int, len2 as int);
        assert(u > limit) by (nonlinear_arith)
            requires
                u as int * u as int >= len2 as int,
                len2 > lim2,
                lim2 == limit as int * limit as int,
                u >= 1,
                limit >= 1,
        ;
        assert(ax * (limit as u64) <= 0x100_0000u64 * 0x10000u64 && ay * (limit as u64)
            <= 0x100_0000u64 * 0x10000u64) by (nonlinear_arith)
            requires
                ax <= 0x100_0000u64,
                ay <= 0x100_0000u64,
                limit <= 0x10000u32,
        ;
    }
    let qx: u64 = ax * (limit as u64) / u;
    let qy: u64 = ay * (limit as u64) / u;
    proof {
        lemma_scaled_le(ax as int, limit as int, u as int);
        lemma_scaled_le(ay as int, limit as int, u as int);
        assert(qx <= limit && qy <= limit);
        lemma_clamp_length(ax as int, ay as int, limit as int, u as int, len2 as int);
        lemma_clamp_cross(ax as int, ay as int, limit as int, u as int);
    }
    let rx: i32 = if nx < 0 {
        -(qx as i32)
    } else {
        qx as i32
    };
    let ry: i32 = if ny < 0 {
        -(qy as i32)
    } else {
        qy as i32
    };
    proof {
        lemma_clamp_signed(nx as int, ny as int, ax as int, ay as int, qx as int, qy as int, rx as int, ry as int, limit as int, u as int);
        assert(u == sp_sqrt_ceil(len2 as int));
        assert(rx as int == spec_clamp_component(nx as int, limit as int, u as int));
        assert(ry as int == spec_clamp_component(ny as int, limit as int, u as int));
    }
    (rx, ry)
}

/// A component's magnitude never exceeds the ceiling square root of the
/// squared length.
proof fn lemma_sqrt_component_le(a: int, b: int, u: int, len2: int)
    requires
        a >= 0,
        b >= 0,
        len2 == a * a + b * b,
        u >= 1,
        u * u >= len2,
    ensures
        a <= u,
{
    if a > u {
        assert(a * a > u * u) by (nonlinear_arith)
            requires
                a > u,
                u >= 1,
        ;
        assert(a * a <= len2) by (nonlinear_arith)
            requires
                b * b >= 0,
                len2 == a * a + b * b,
        ;
    }
}

/// Rescaling a component that is at most `u` by `limit / u` with
/// `limit <= u` shrinks it, and the result never exceeds `limit`.
proof fn lemma_scaled_le(a: int, limit: int, u: int)
    requires
        0 <= a <= u,
        1 <= limit <= u,
    ensures
        a * limit / u <= limit,
        a * limit / u >= 0,
        a * limit / u <= a,
{
    assert(a * limit <= u * limit) by (nonlinear_arith)
        requires
            a <= u,
            limit >= 1,
    ;
    assert(a * limit <= a * u) by (nonlinear_arith)
        requires
            a >= 0,
            limit <= u,
    ;
    assert(a * limit / u <= limit) by (nonlinear_arith)
        requires
            u >= 1,
            a * limit <= u * limit,
    ;
    assert(a * limit / u <= a) by (nonlinear_arith)
        requires
            u >= 1,
            a >= 0,
            a * limit <= a * u,
    ;
    assert(a * limit / u >= 0) by (nonlinear_arith)
        requires
            a >= 0,
            limit >= 1,
            u >= 1,
    ;
}

/// The rescaled magnitudes keep the squared length within the squared
/// limit.
proof fn lemma_clamp_length(a: int, b: int, limit: int, u: int, len2: int)
    requires
        a >= 0,
        b >= 0,
        limit >= 1,
        u >= 1,
        len2 == a * a + b * b,
        u * u >= len2,
    ensures
        (a * limit / u) * (a * limit / u) + (b * limit / u) * (b * limit / u) <= limit * limit,
{
    let qa = a * limit / u;
    let qb = b * limit / u;
    assert(qa * u <= a * limit && qa >= 0) by (nonlinear_arith)
        requires
            a >= 0,
            limit >= 1,
            u >= 1,
            qa == a * limit / u,
    ;
    assert(qb * u <= b * limit && qb >= 0) by (nonlinear_arith)
        requires
            b >= 0,
            limit >= 1,
            u >= 1,
            qb == b * limit / u,
    ;
    assert((qa * qa + qb * qb) * (u * u) <= (a * a + b * b) * (limit * limit)) by (nonlinear_arith)
        requires
            qa * u <= a * limit,
            qb * u <= b * limit,
            qa >= 0,
            qb >= 0,
            a >= 0,
            b >= 0,
            u >= 1,
            limit >= 1,
    ;
    assert(qa * qa + qb * qb <= limit * limit) by (nonlinear_arith)
        requires
            (qa * qa + qb * qb) * (u * u) <= (a * a + b * b) * (limit * limit),
            len2 == a * a + b * b,
            u * u >= len2,
            u >= 1,
            qa >= 0,
            qb >= 0,
            limit >= 1,
    ;
}

/// The rescaled magnitudes deviate from the original direction by at
/// most one rounding unit per component: `|qa * b - qb * a| <= a + b`.
proof fn lemma_clamp_cross(a: int, b: int, limit: int, u: int)
    requires
        a >= 0,
        b >= 0,
        limit >= 1,
        u >= 1,
    ensures
        iabs((a * limit / u) * b - (b * limit / u) * a) <= a + b,
{
    let qa = a * limit / u;
    let qb = b * limit / u;
    let ra = (a * limit) % u;
    let rb = (b * limit) % u;
    assert(a * limit == qa * u + ra && 0 <= ra < u) by (nonlinear_arith)
        requires
            a >= 0,
            limit >= 1,
            u >= 1,
            qa == a * limit / u,
            ra == (a * limit) % u,
    ;
    assert(b * limit == qb * u + rb && 0 <= rb < u) by (nonlinear_arith)
        requires
            b >= 0,
            limit >= 1,
            u >= 1,
            qb == b * limit / u,
            rb == (b * limit) % u,
    ;
    assert(u * (qa * b - qb * a) == rb * a - ra * b) by (nonlinear_arith)
        requires
            a * limit == qa * u + ra,
            b * limit == qb * u + rb,
    ;
    assert(iabs(rb * a - ra * b) <= u * (a + b)) by (nonlinear_arith)
        requires
            0 <= ra < u,
            0 <= rb < u,
            a >= 0,
            b >= 0,
    ;
    assert(iabs(qa * b - qb * a) <= a + b) by (nonlinear_arith)
        requires
            u * (qa * b - qb * a) == rb * a - ra * b,
            iabs(rb * a - ra * b) <= u * (a + b),
            u >= 1,
            a >= 0,
            b >= 0,
    ;
}

/// Restoring the signs keeps every clamp guarantee.
proof fn lemma_clamp_signed(
    nx: int,
    ny: int,
    ax: int,
    ay: int,
    qx: int,
    qy: int,
    rx: int,
    ry: int,
    limit: int,
    u: int,
)
    requires
        ax == iabs(nx),
        ay == iabs(ny),
        0 <= qx <= ax,
        0 <= qy <= ay,
        qx * qx + qy * qy <= limit * limit,
        iabs(qx * ay - qy * ax) <= ax + ay,
        rx == (if nx < 0 { -qx } else { qx }),
        ry == (if ny < 0 { -qy } else { qy }),
    ensures
        rx * rx + ry * ry <= limit * limit,
        rx * nx >= 0,
        ry * ny >= 0,
        iabs(rx) <= iabs(nx),
        iabs(ry) <= iabs(ny),
        iabs(rx * ny - ry * nx) <= iabs(nx) + iabs(ny),
{
    assert(rx * rx == qx * qx && ry * ry == qy * qy) by (nonlinear_arith)
        requires
            rx == qx || rx == -qx,
            ry == qy || ry == -qy,
    ;
    assert(rx * nx >= 0 && ry * ny >= 0) by (nonlinear_arith)
        requires
            ax == iabs(nx),
            ay == iabs(ny),
            0 <= qx,
            0 <= qy,
            rx == (if nx < 0 { -qx } else { qx }),
            ry == (if ny < 0 { -qy } else { qy }),
    ;
    assert(rx * ny - ry * nx == (if (nx < 0) == (ny < 0) {
        (if nx < 0 { -1int } else { 1int }) * (if ny < 0 { -1int } else { 1int }) * (qx * ay - qy * ax)
    } else {
        (if nx < 0 { -1int } else { 1int }) * (if ny < 0 { -1int } else { 1int }) * (qx * ay - qy * ax)
    })) by (nonlinear_arith)
        requires
            ax == iabs(nx),
            ay == iabs(ny),
            rx == (if nx < 0 { -qx } else { qx }),
            ry == (if ny < 0 { -qy } else { qy }),
    ;
    assert(iabs(rx * ny - ry * nx) == iabs(qx * ay - qy * ax)) by (nonlinear_arith)
        requires
            ax == iabs(nx),
            ay == iabs(ny),
            rx == (if nx < 0 { -qx } else { qx }),
            ry == (if ny < 0 { -qy } else { qy }),
    ;
}

/// Saturate a tile-local coordinate into the quantized 16-bit range.
pub fn sat_pos(x: i32) -> (r: i16)
    ensures
        r as int == sat_i16(x as int),
{
    if x < -32768 {
        -32768
    } else if x > 32767 {
        32767
    } else {
        x as i16
    }
}

/// Builds vertices for one feature of one tile.
#[derive(Clone, Copy, Debug)]
pub struct LayerVertexCtor {
    pub tile_id: TileId,
    pub feature_id: u32,
    pub extent: u32,
    pub vertex_type: VertexType,
}

/// Scaling a clamped fixed-point normal component by the extent, then
/// saturating into 16 bits.
pub open spec fn spec_scale_component(c: int, extent: int) -> int {
    if c < 0 {
        sat_i16(-(iabs(c) * extent / FIX_ONE as int))
    } else {
        sat_i16(iabs(c) * extent / FIX_ONE as int)
    }
}

impl LayerVertexCtor {
    /// The clamp limit the vertex class implies.
    pub open spec fn spec_normal_limit(self) -> int {
        if self.vertex_type is Line {
            LINE_NORMAL_LIMIT as int
        } else {
            POLYGON_NORMAL_LIMIT as int
        }
    }

    /// What one built vertex holds: the position saturated, the normal
    /// clamped then scaled by the extent, and the feature id packed.
    pub open spec fn vertex_is(self, v: Vertex, px: int, py: int, nx: int, ny: int) -> bool {
        let c = spec_clamp(nx, ny, self.spec_normal_limit());
        &&& v.position@[0] as int == sat_i16(px)
        &&& v.position@[1] as int == sat_i16(py)
        &&& v.normal@[0] as int == spec_scale_component(c.0, self.extent as int)
        &&& v.normal@[1] as int == spec_scale_component(c.1, self.extent as int)
        &&& v.feature_id == spec_vertex_type_code(self.vertex_type) * 0x10000 + self.feature_id
    }

    pub fn new(tile_id: &TileId, extent: u32) -> (c: LayerVertexCtor)
        ensures
            c.tile_id == *tile_id,
            c.feature_id == 0,
            c.extent == extent,
            c.vertex_type == VertexType::Polygon,
    {
        LayerVertexCtor { tile_id: *tile_id, feature_id: 0, extent, vertex_type: VertexType::Polygon }
    }

    /// The clamp limit this vertex class uses.
    pub fn normal_limit(&self) -> (r: u32)
        ensures
            r == self.spec_normal_limit(),
    {
        match self.vertex_type {
            VertexType::Line => LINE_NORMAL_LIMIT,
            VertexType::Polygon => POLYGON_NORMAL_LIMIT,
        }
    }

    /// One vertex: the position saturated and quantized, the normal
    /// clamped, scaled by the extent and saturated, and the feature id
    /// packed.
    pub fn new_vertex(&self, px: i32, py: i32, nx: i32, ny: i32) -> (v: Vertex)
        requires
            -MAX_NORMAL <= nx <= MAX_NORMAL,
            -MAX_NORMAL <= ny <= MAX_NORMAL,
            self.feature_id < 0x10000,
            1 <= self.extent <= 65536,
        ensures
            self.vertex_is(v, px as int, py as int, nx as int, ny as int),
    {
        let limit = self.normal_limit();
        let (cx, cy) = clamp_normal(nx, ny, limit);
        let sx = scale_component(cx, self.extent);
        let sy = scale_component(cy, self.extent);
        Vertex {
            position: [sat_pos(px), sat_pos(py)],
            normal: [sx, sy],
            feature_id: pack_feature_id(self.vertex_type, self.feature_id),
        }
    }
}

/// Scale a clamped normal component by the extent and saturate.
pub fn scale_component(c: i32, extent: u32) -> (r: i16)
    requires
        -0x10000 <= c <= 0x10000,
        1 <= extent <= 65536,
    ensures
        r == spec_scale_component(c as int, extent as int),
{
    let mag: u64 = if c < 0 {
        (-(c as i64)) as u64
    } else {
        c as u64
    };
    proof {
        assert(mag * (extent as u64) <= 0x10000u64 * 0x10000u64) by (nonlinear_arith)
            requires
                mag <= 0x10000u64,
                extent <= 0x10000u32,
        ;
    }
    let scaled: u64 = mag * (extent as u64) / (FIX_ONE as u64);
    let clamped: u64 = if scaled > 32767 {
        if c < 0 {
            32768
        } else {
            32767
        }
    } else {
        scaled
    };
    if c < 0 {
        (-(clamped as i64)) as i16
    } else {
        clamped as i16
    }
}

} // verus!
