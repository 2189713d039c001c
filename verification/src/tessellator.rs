//! The tessellator: styled geometry into GPU vertex and index buffers.
//!
//! Polygons are fill-tessellated as a triangle fan over their contour
//! (vertex normals are zero for fill).  Lines are stroke-tessellated
//! into a triangulated ribbon: every polyline vertex becomes two mesh
//! vertices extruded along opposite normals, and every segment two
//! triangles.  An interior vertex gets the miter normal, computed in
//! fixed point from the two adjacent segments' unit perpendiculars and
//! clamped by the vertex constructor; an endpoint gets its single
//! segment's perpendicular.  Degenerate geometry (too few points, or a
//! zero-length segment) fails with `TessellationError`, and a tile
//! build skips the offending object while the rest of the tile still
//! renders.

use vstd::prelude::*;
use crate::object::{COORD_LIMIT, Object, ObjectType, Point, objects_wf, point_views};
use crate::vertex::{
    FIX_ONE,
    LayerVertexCtor,
    MAX_NORMAL,
    Vertex,
    VertexType,
    iabs,
    isqrt_ceil,
    sp_sqrt_ceil,
};

verus! {

/// Why an object could not be tessellated.
#[derive(Clone, Copy, Debug, PartialEq, Eq, Structural)]
pub enum TessellationError {
    /// Too few points, or a zero-length segment.
    DegenerateGeometry,
}

/// A tile's tessellated buffers.
#[derive(Clone, Debug)]
pub struct Mesh {
    pub vertices: Vec<Vertex>,
    pub indices: Vec<u32>,
}

/// Every index points at a vertex of the mesh.
pub open spec fn mesh_wf(m: Mesh) -> bool {
    forall|k: int| 0 <= k < m.indices@.len() ==> (#[trigger] m.indices@[k]) < m.vertices@.len()
}

/// `|c| * num / den`, with the sign of `c` restored.
pub open spec fn sp_scale(c: int, num: int, den: int) -> int
    recommends
        den >= 1,
{
    if c < 0 {
        -(iabs(c) * num / den)
    } else {
        iabs(c) * num / den
    }
}

/// The fixed-point unit perpendicular of the segment from `a` to `b`:
/// the segment direction rotated a quarter turn and scaled to length
/// `FIX_ONE`, rounded toward zero.
pub open spec fn sp_perp(a: (int, int), b: (int, int)) -> (int, int)
    recommends
        a != b,
{
    let dx = b.0 - a.0;
    let dy = b.1 - a.1;
    let l = sp_sqrt_ceil(dx * dx + dy * dy);
    (sp_scale(-dy, FIX_ONE as int, l), sp_scale(dx, FIX_ONE as int, l))
}

/// The miter normal at an interior vertex: the sum `m` of the adjacent
/// unit perpendiculars, rescaled by `2 * FIX_ONE^2 / |m|^2`, which
/// gives the perpendicular direction with the miter length
/// `FIX_ONE / cos(half turn angle)`.  When the two segments reverse
/// exactly (`m == 0`), the incoming perpendicular is used instead.
pub open spec fn sp_miter(prev: (int, int), cur: (int, int), next: (int, int)) -> (int, int)
    recommends
        prev != cur,
        cur != next,
{
    let p1 = sp_perp(prev, cur);
    let p2 = sp_perp(cur, next);
    let mx = p1.0 + p2.0;
    let my = p1.1 + p2.1;
    if mx == 0 && my == 0 {
        p1
    } else {
        let msq = mx * mx + my * my;
        (
            sp_scale(mx, 2 * FIX_ONE as int * FIX_ONE as int, msq),
            sp_scale(my, 2 * FIX_ONE as int * FIX_ONE as int, msq),
        )
    }
}

/// The extrusion normal at polyline vertex `i`.
pub open spec fn sp_stroke_normal(points: Seq<(int, int)>, i: int) -> (int, int)
    recommends
        points.len() >= 2,
        0 <= i < points.len(),
{
    if i == 0 {
        sp_perp(points[0], points[1])
    } else if i == points.len() - 1 {
        sp_perp(points[points.len() - 2], points[points.len() - 1])
    } else {
        sp_miter(points[i - 1], points[i], points[i + 1])
    }
}

/// A polyline a stroke cannot be built from: fewer than two points, or
/// two equal neighbours.
pub open spec fn degenerate_polyline(points: Seq<(int, int)>) -> bool {
    points.len() < 2 || exists|i: int| 0 <= i < points.len() - 1 && points[i] == #[trigger] points[
        i + 1
    ]
}

/// The first `j` polyline points correctly expanded into ribbon
/// vertices: two per point, extruded along the stroke normal and its
/// negation.
pub open spec fn stroke_vertices_ok(
    ctor: LayerVertexCtor,
    vs: Seq<Vertex>,
    points: Seq<Point>,
    pv: Seq<(int, int)>,
    j: int,
) -> bool {
    forall|k: int|
        0 <= k < j ==> ctor.vertex_is(
            #[trigger] vs[2 * k],
            points[k].x as int,
            points[k].y as int,
            sp_stroke_normal(pv, k).0,
            sp_stroke_normal(pv, k).1,
        ) && ctor.vertex_is(
            vs[2 * k + 1],
            points[k].x as int,
            points[k].y as int,
            -sp_stroke_normal(pv, k).0,
            -sp_stroke_normal(pv, k).1,
        )
}

/// `|c| * num / den` with the sign restored, in machine integers.
fn scale_signed(c: i64, num: i64, den: i64) -> (r: i64)
    requires
        1 <= den,
        0 <= num <= 0x20000,
        -0x4000_0000 <= c <= 0x4000_0000,
    ensures
        r as int == sp_scale(c as int, num as int, den as int),
{
    let mag: u64 = if c < 0 {
        (-c) as u64
    } else {
        c as u64
    };
    proof {
        assert(mag as int * num as int <= 0x4000_0000 * 0x20000) by (nonlinear_arith)
            requires
                mag <= 0x4000_0000u64,
                num <= 0x20000i64,
                num >= 0,
        ;
    }
    let scaled: u64 = mag * (num as u64) / (den as u64);
    if c < 0 {
        -(scaled as i64)
    } else {
        scaled as i64
    }
}

/// A scaled magnitude never exceeds `num` while the magnitude is at
/// most the divisor.
proof fn lemma_scale_num_bound(a: int, num: int, den: int)
    requires
        0 <= a <= den,
        1 <= den,
        0 <= num,
    ensures
        0 <= a * num / den <= num,
{
    assert(a * num <= den * num) by (nonlinear_arith)
        requires
            a <= den,
            num >= 0,
    ;
    assert(a * num / den <= num) by (nonlinear_arith)
        requires
            den >= 1,
            a * num <= den * num,
    ;
    assert(a * num / den >= 0) by (nonlinear_arith)
        requires
            a >= 0,
            num >= 0,
            den >= 1,
    ;
}

/// The unit perpendicular of one segment.
fn perp(a: Point, b: Point) -> (r: (i64, i64))
    requires
        -COORD_LIMIT <= a.x <= COORD_LIMIT,
        -COORD_LIMIT <= a.y <= COORD_LIMIT,
        -COORD_LIMIT <= b.x <= COORD_LIMIT,
        -COORD_LIMIT <= b.y <= COORD_LIMIT,
        (a.x, a.y) != (b.x, b.y),
    ensures
        (r.0 as int, r.1 as int) == sp_perp((a.x as int, a.y as int), (b.x as int, b.y as int)),
        -FIX_ONE <= r.0 <= FIX_ONE,
        -FIX_ONE <= r.1 <= FIX_ONE,
{
    let dx: i64 = b.x as i64 - a.x as i64;
    let dy: i64 = b.y as i64 - a.y as i64;
    proof {
        assert(dx * dx <= 0x2000_0000i64 * 0x2000_0000i64 && dx * dx >= 0 && dy * dy
            <= 0x2000_0000i64 * 0x2000_0000i64 && dy * dy >= 0) by (nonlinear_arith)
            requires
                -0x2000_0000 <= dx <= 0x2000_0000i64,
                -0x2000_0000 <= dy <= 0x2000_0000i64,
        ;
    }
    let d2: u64 = (dx * dx) as u64 + (dy * dy) as u64;
    proof {
        if d2 == 0 {
            assert(dx * dx == 0 && dy * dy == 0);
            assert(dx == 0 && dy == 0) by (nonlinear_arith)
                requires
                    dx * dx == 0,
                    dy * dy == 0,
            ;
        }
    }
    let l = isqrt_ceil(d2);
    proof {
        lemma_component_le_sqrt(dx as int, dy as int, l as int, d2 as int);
        lemma_component_le_sqrt(dy as int, dx as int, l as int, d2 as int);
        lemma_scale_num_bound(iabs(-dy as int), FIX_ONE as int, l as int);
        lemma_scale_num_bound(iabs(dx as int), FIX_ONE as int, l as int);
    }
    let px = scale_signed(-dy, FIX_ONE as i64, l as i64);
    let py = scale_signed(dx, FIX_ONE as i64, l as i64);
    (px, py)
}

/// A component's magnitude is at most the ceiling square root of the
/// squared length.
proof fn lemma_component_le_sqrt(a: int, b: int, l: int, d2: int)
    requires
        d2 == a * a + b * b,
        l >= 1,
        l * l >= d2,
    ensures
        iabs(a) <= l,
{
    assert(iabs(a) * iabs(a) == a * a) by (nonlinear_arith);
    assert(b * b >= 0) by (nonlinear_arith);
    if iabs(a) > l {
        assert(iabs(a) * iabs(a) > l * l) by (nonlinear_arith)
            requires
                iabs(a) > l,
                l >= 1,
        ;
        assert(iabs(a) * iabs(a) <= d2) by (nonlinear_arith)
            requires
                b * b >= 0,
                d2 == a * a + b * b,
                iabs(a) * iabs(a) == a * a,
        ;
    }
}

/// The miter normal at an interior polyline vertex.
fn miter(prev: Point, cur: Point, next: Point) -> (r: (i64, i64))
    requires
        -COORD_LIMIT <= prev.x <= COORD_LIMIT,
        -COORD_LIMIT <= prev.y <= COORD_LIMIT,
        -COORD_LIMIT <= cur.x <= COORD_LIMIT,
        -COORD_LIMIT <= cur.y <= COORD_LIMIT,
        -COORD_LIMIT <= next.x <= COORD_LIMIT,
        -COORD_LIMIT <= next.y <= COORD_LIMIT,
        (prev.x, prev.y) != (cur.x, cur.y),
        (cur.x, cur.y) != (next.x, next.y),
    ensures
        (r.0 as int, r.1 as int) == sp_miter(
            (prev.x as int, prev.y as int),
            (cur.x as int, cur.y as int),
            (next.x as int, next.y as int),
        ),
        -MAX_NORMAL <= r.0 <= MAX_NORMAL,
        -MAX_NORMAL <= r.1 <= MAX_NORMAL,
{
    let p1 = perp(prev, cur);
    let p2 = perp(cur, next);
    let mx = p1.0 + p2.0;
    let my = p1.1 + p2.1;
    if mx == 0 && my == 0 {
        return p1;
    }
    proof {
        assert(mx * mx >= 0 && my * my >= 0 && mx * mx <= 512i64 * 512i64 && my * my <= 512i64
            * 512i64) by (nonlinear_arith)
            requires
                -512 <= mx <= 512i64,
                -512 <= my <= 512i64,
        ;
        if mx != 0 {
            assert(mx * mx >= 1) by (nonlinear_arith)
                requires
                    mx != 0i64,
            ;
        } else {
            assert(my != 0);
            assert(my * my >= 1) by (nonlinear_arith)
                requires
                    my != 0i64,
            ;
        }
    }
    let msq: i64 = mx * mx + my * my;
    proof {
        lemma_abs_le_square(mx as int, msq as int, my as int);
        lemma_abs_le_square(my as int, msq as int, mx as int);
        lemma_scale_num_bound(iabs(mx as int), 2 * FIX_ONE as int * FIX_ONE as int, msq as int);
        lemma_scale_num_bound(iabs(my as int), 2 * FIX_ONE as int * FIX_ONE as int, msq as int);
    }
    let sx = scale_signed(mx, 2 * (FIX_ONE as i64) * (FIX_ONE as i64), msq);
    let sy = scale_signed(my, 2 * (FIX_ONE as i64) * (FIX_ONE as i64), msq);
    (sx, sy)
}

/// A nonzero integer's magnitude is at most any sum of its own square
/// and another square.
proof fn lemma_abs_le_square(a: int, msq: int, b: int)
    requires
        msq == a * a + b * b,
        msq >= 1,
    ensures
        iabs(a) <= msq,
{
    if a == 0 {
    } else {
        assert(iabs(a) <= iabs(a) * iabs(a)) by (nonlinear_arith)
            requires
                iabs(a) >= 1,
        ;
        assert(iabs(a) * iabs(a) == a * a) by (nonlinear_arith);
        assert(b * b >= 0) by (nonlinear_arith);
    }
}

/// The first `s` fan triangles in place: triangle `t` is the index
/// triple (0, t + 1, t + 2).
pub open spec fn fan_indices_ok(is: Seq<u32>, s: int) -> bool {
    forall|t: int|
        0 <= t < s ==> #[trigger] is[3 * t] == 0 && is[3 * t + 1] == t + 1 && is[3 * t + 2] == t
            + 2
}

/// What a fill tessellation produces: one vertex per contour point
/// with a zero normal, and fan triangles over vertex zero.
pub open spec fn fill_parts_ok(
    ctor: LayerVertexCtor,
    vs: Seq<Vertex>,
    is: Seq<u32>,
    points: Seq<Point>,
) -> bool {
    &&& vs.len() == points.len()
    &&& forall|i: int|
        0 <= i < points.len() ==> ctor.vertex_is(
            #[trigger] vs[i],
            points[i].x as int,
            points[i].y as int,
            0,
            0,
        )
    &&& is.len() == 3 * (points.len() - 2)
    &&& fan_indices_ok(is, points.len() - 2)
    &&& forall|k: int| 0 <= k < is.len() ==> (#[trigger] is[k]) < vs.len()
}

/// Fill-tessellate a polygon contour into a triangle fan.  Fails when
/// the contour has fewer than three points; otherwise one vertex per
/// contour point (normals zero) and one triangle per fan step.
#[verifier::rlimit(60)]
#[verifier::spinoff_prover]
pub fn tessellate_fill(ctor: &LayerVertexCtor, points: &Vec<Point>) -> (r: Result<
    (Vec<Vertex>, Vec<u32>),
    TessellationError,
>)
    requires
        ctor.feature_id < 0x10000,
        1 <= ctor.extent <= 65536,
        points@.len() < 0x8000_0000,
    ensures
        r is Err <==> points@.len() < 3,
        (match r {
            Ok(t) => fill_parts_ok(*ctor, t.0@, t.1@, points@),
            Err(e) => e == TessellationError::DegenerateGeometry,
        }),
{
    let n = points.len();
    if n < 3 {
        return Err(TessellationError::DegenerateGeometry);
    }
    let mut vs: Vec<Vertex> = Vec::new();
    let mut i: usize = 0;
    while i < n
        invariant
            i <= n == points@.len() < 0x8000_0000,
            ctor.feature_id < 0x10000,
            1 <= ctor.extent <= 65536,
            vs@.len() == i,
            forall|k: int|
                0 <= k < i ==> ctor.vertex_is(
                    #[trigger] vs@[k],
                    points@[k].x as int,
                    points@[k].y as int,
                    0,
                    0,
                ),
        decreases n - i,
    {
        let p = points[i];
        let v = ctor.new_vertex(p.x, p.y, 0, 0);
        vs.push(v);
        i = i + 1;
    }
    let mut is: Vec<u32> = Vec::new();
    let mut s: usize = 0;
    while s < n - 2
        invariant
            n >= 3,
            n < 0x8000_0000,
            s <= n - 2,
            is@.len() == 3 * s,
            fan_indices_ok(is@, s as int),
            forall|k: int| 0 <= k < is@.len() ==> (#[trigger] is@[k]) < n,
        decreases n - 2 - s,
    {
        let ghost old_is = is@;
        is.push(0);
        is.push((s + 1) as u32);
        is.push((s + 2) as u32);
        proof {
            assert(forall|k: int| 0 <= k < old_is.len() ==> #[trigger] is@[k] == old_is[k]);
            assert(is@[3 * (s as int)] == 0);
            assert(is@[3 * (s as int) + 1] == s + 1);
            assert(is@[3 * (s as int) + 2] == s + 2);
            assert(fan_indices_ok(is@, s as int + 1)) by {
                assert forall|t: int|
                    0 <= t < s + 1 implies #[trigger] is@[3 * t] == 0 && is@[3 * t + 1] == t + 1
                    && is@[3 * t + 2] == t + 2 by {
                    if t < s as int {
                        assert(fan_indices_ok(old_is, s as int));
                        assert(old_is[3 * t] == 0 && old_is[3 * t + 1] == t + 1 && old_is[3 * t
                            + 2] == t + 2);
                        assert(is@[3 * t] == old_is[3 * t]);
                        assert(is@[3 * t + 1] == old_is[3 * t + 1]);
                        assert(is@[3 * t + 2] == old_is[3 * t + 2]);
                    }
                }
            }
        }
        s = s + 1;
    }
    Ok((vs, is))
}

/// What a stroke tessellation produces: a ribbon of two vertices per
/// polyline point and two triangles per segment.
pub open spec fn stroke_parts_ok(
    ctor: LayerVertexCtor,
    vs: Seq<Vertex>,
    is: Seq<u32>,
    points: Seq<Point>,
) -> bool {
    &&& vs.len() == 2 * points.len()
    &&& stroke_vertices_ok(ctor, vs, points, point_views(points), points.len() as int)
    &&& is.len() == 6 * (points.len() - 1)
    &&& forall|s: int|
        0 <= s < points.len() - 1 ==> #[trigger] is[6 * s] == 2 * s && is[6 * s + 1] == 2 * s + 1
            && is[6 * s + 2] == 2 * s + 2 && is[6 * s + 3] == 2 * s + 1 && is[6 * s + 4] == 2 * s
            + 3 && is[6 * s + 5] == 2 * s + 2
    &&& forall|k: int| 0 <= k < is.len() ==> (#[trigger] is[k]) < vs.len()
}

/// Stroke-tessellate a polyline into a ribbon: two vertices per point,
/// extruded along the stroke normal and its negation, and two triangles
/// per segment.  Fails on a degenerate polyline.
#[verifier::rlimit(90)]
#[verifier::spinoff_prover]
pub fn tessellate_stroke(ctor: &LayerVertexCtor, points: &Vec<Point>) -> (r: Result<
    (Vec<Vertex>, Vec<u32>),
    TessellationError,
>)
    requires
        ctor.feature_id < 0x10000,
        1 <= ctor.extent <= 65536,
        points@.len() < 0x4000_0000,
        crate::vector_tile::points_bounded(point_views(points@)),
    ensures
        r is Err <==> degenerate_polyline(point_views(points@)),
        (match r {
            Ok(t) => stroke_parts_ok(*ctor, t.0@, t.1@, points@),
            Err(e) => e == TessellationError::DegenerateGeometry,
        }),
{
    let ghost pv = point_views(points@);
    let n = points.len();
    if n < 2 {
        return Err(TessellationError::DegenerateGeometry);
    }
    let mut i: usize = 0;
    while i < n - 1
        invariant
            n == points@.len(),
            n >= 2,
            pv == point_views(points@),
            i <= n - 1,
            forall|k: int| 1 <= k <= i ==> #[trigger] pv[k] != pv[k - 1],
        decreases n - 1 - i,
    {
        let a = points[i];
        let b = points[i + 1];
        if a.x == b.x && a.y == b.y {
            proof {
                assert(pv[i as int] == (a.x as int, a.y as int));
                assert(pv[i as int + 1] == (b.x as int, b.y as int));
            }
            return Err(TessellationError::DegenerateGeometry);
        }
        proof {
            assert(pv[i as int] == (a.x as int, a.y as int));
            assert(pv[i as int + 1] == (b.x as int, b.y as int));
            assert(pv[i as int + 1] != pv[i as int]);
        }
        i = i + 1;
    }
    let mut vs: Vec<Vertex> = Vec::new();
    let mut j: usize = 0;
    while j < n
        invariant
            n == points@.len(),
            2 <= n < 0x4000_0000,
            pv == point_views(points@),
            ctor.feature_id < 0x10000,
            1 <= ctor.extent <= 65536,
            crate::vector_tile::points_bounded(pv),
            forall|k: int| 1 <= k < n ==> #[trigger] pv[k] != pv[k - 1],
            j <= n,
            vs@.len() == 2 * j,
            stroke_vertices_ok(*ctor, vs@, points@, pv, j as int),
        decreases n - j,
    {
        proof {
            assert(pv[j as int] == (points@[j as int].x as int, points@[j as int].y as int));
            if j >= 1 {
                assert(pv[j as int - 1] == (
                    points@[j as int - 1].x as int,
                    points@[j as int - 1].y as int,
                ));
            }
            if j + 1 < n {
                assert(pv[j as int + 1] == (
                    points@[j as int + 1].x as int,
                    points@[j as int + 1].y as int,
                ));
            }
        }
        let normal: (i64, i64) = if j == 0 {
            proof {
                assert(pv[0] != pv[1]);
            }
            perp(points[0], points[1])
        } else if j == n - 1 {
            proof {
                assert(pv[j as int - 1] != pv[j as int]);
            }
            perp(points[n - 2], points[n - 1])
        } else {
            proof {
                assert(pv[j as int - 1] != pv[j as int]);
                assert(pv[j as int] != pv[j as int + 1]);
            }
            miter(points[j - 1], points[j], points[j + 1])
        };
        proof {
            assert((normal.0 as int, normal.1 as int) == sp_stroke_normal(pv, j as int));
            assert(-MAX_NORMAL <= normal.0 <= MAX_NORMAL && -MAX_NORMAL <= normal.1 <= MAX_NORMAL);
            assert((normal.0 as i32) as int == normal.0 as int && (normal.1 as i32) as int
                == normal.1 as int);
        }
        let p = points[j];
        let v1 = ctor.new_vertex(p.x, p.y, normal.0 as i32, normal.1 as i32);
        let v2 = ctor.new_vertex(p.x, p.y, -(normal.0 as i32), -(normal.1 as i32));
        proof {
            assert(ctor.vertex_is(
                v1,
                points@[j as int].x as int,
                points@[j as int].y as int,
                sp_stroke_normal(pv, j as int).0,
                sp_stroke_normal(pv, j as int).1,
            ));
            assert(ctor.vertex_is(
                v2,
                points@[j as int].x as int,
                points@[j as int].y as int,
                -sp_stroke_normal(pv, j as int).0,
                -sp_stroke_normal(pv, j as int).1,
            ));
        }
        let ghost old_vs = vs@;
        vs.push(v1);
        vs.push(v2);
        proof {
            assert(forall|k: int| 0 <= k < old_vs.len() ==> #[trigger] vs@[k] == old_vs[k]);
            assert(vs@[2 * (j as int)] == v1);
            assert(vs@[2 * (j as int) + 1] == v2);
            assert(stroke_vertices_ok(*ctor, vs@, points@, pv, j as int + 1)) by {
                assert forall|k: int| 0 <= k < j + 1 implies ctor.vertex_is(
                    #[trigger] vs@[2 * k],
                    points@[k].x as int,
                    points@[k].y as int,
                    sp_stroke_normal(pv, k).0,
                    sp_stroke_normal(pv, k).1,
                ) && ctor.vertex_is(
                    vs@[2 * k + 1],
                    points@[k].x as int,
                    points@[k].y as int,
                    -sp_stroke_normal(pv, k).0,
                    -sp_stroke_normal(pv, k).1,
                ) by {
                    if k == j as int {
                        assert(vs@[2 * k] == v1);
                        assert(vs@[2 * k + 1] == v2);
                    } else {
                        assert(vs@[2 * k] == old_vs[2 * k]);
                        assert(vs@[2 * k + 1] == old_vs[2 * k + 1]);
                        assert(stroke_vertices_ok(*ctor, old_vs, points@, pv, j as int));
                        assert(ctor.vertex_is(
                            old_vs[2 * k],
                            points@[k].x as int,
                            points@[k].y as int,
                            sp_stroke_normal(pv, k).0,
                            sp_stroke_normal(pv, k).1,
                        ));
                    }
                }
            }
        }
        j = j + 1;
    }
    let mut is: Vec<u32> = Vec::new();
    let mut s: usize = 0;
    while s < n - 1
        invariant
            2 <= n < 0x4000_0000,
            s <= n - 1,
            is@.len() == 6 * s,
            forall|t: int|
                0 <= t < s ==> #[trigger] is@[6 * t] == 2 * t && is@[6 * t + 1] == 2 * t + 1
                    && is@[6 * t + 2] == 2 * t + 2 && is@[6 * t + 3] == 2 * t + 1 && is@[6 * t + 4]
                    == 2 * t + 3 && is@[6 * t + 5] == 2 * t + 2,
            forall|k: int| 0 <= k < is@.len() ==> (#[trigger] is@[k]) < 2 * n,
        decreases n - 1 - s,
    {
        let ghost old_is = is@;
        is.push((2 * s) as u32);
        is.push((2 * s + 1) as u32);
        is.push((2 * s + 2) as u32);
        is.push((2 * s + 1) as u32);
        is.push((2 * s + 3) as u32);
        is.push((2 * s + 2) as u32);
        proof {
            assert(forall|k: int| 0 <= k < old_is.len() ==> #[trigger] is@[k] == old_is[k]);
            assert(is@[6 * (s as int)] == 2 * s);
            assert(is@[6 * (s as int) + 1] == 2 * s + 1);
            assert(is@[6 * (s as int) + 2] == 2 * s + 2);
            assert(is@[6 * (s as int) + 3] == 2 * s + 1);
            assert(is@[6 * (s as int) + 4] == 2 * s + 3);
            assert(is@[6 * (s as int) + 5] == 2 * s + 2);
            assert forall|t: int| 0 <= t < s + 1 implies #[trigger] is@[6 * t] == 2 * t && is@[6 * t
                + 1] == 2 * t + 1 && is@[6 * t + 2] == 2 * t + 2 && is@[6 * t + 3] == 2 * t + 1
                && is@[6 * t + 4] == 2 * t + 3 && is@[6 * t + 5] == 2 * t + 2 by {
                if t < s as int {
                    assert(is@[6 * t] == old_is[6 * t]);
                    assert(is@[6 * t + 1] == old_is[6 * t + 1]);
                    assert(is@[6 * t + 2] == old_is[6 * t + 2]);
                    assert(is@[6 * t + 3] == old_is[6 * t + 3]);
                    assert(is@[6 * t + 4] == old_is[6 * t + 4]);
                    assert(is@[6 * t + 5] == old_is[6 * t + 5]);
                }
            }
        }
        s = s + 1;
    }
    proof {
        assert(stroke_parts_ok(*ctor, vs@, is@, points@));
    }
    Ok((vs, is))
}

/// Indices rebased up by a vertex offset.
pub open spec fn shift_up(is: Seq<u32>, base: int) -> Seq<u32> {
    is.map_values(|x: u32| ((x + base) as u32))
}

/// Indices rebased back down by a vertex offset.
pub open spec fn shift_down(is: Seq<u32>, base: int) -> Seq<u32> {
    is.map_values(|x: u32| ((x - base) as u32))
}

/// The vertex constructor a tile build uses for object `i`.
pub open spec fn part_ctor(extent: u32, i: int, o: Object) -> LayerVertexCtor {
    LayerVertexCtor {
        tile_id: crate::math::TileId { zoom: 0, x: 0, y: 0 },
        feature_id: i as u32,
        extent,
        vertex_type: match o.object_type {
            ObjectType::Line => VertexType::Line,
            _ => VertexType::Polygon,
        },
    }
}

/// How many vertices and indices one object contributes to a tile
/// mesh: a fan for a polygon, a ribbon for a line, nothing for a point
/// feature or for geometry the tessellator rejects.
pub open spec fn object_part_counts(o: Object, feature_index: int) -> (nat, nat) {
    if feature_index >= 0x10000 || o.points@.len() >= 0x4000_0000 {
        (0nat, 0nat)
    } else {
        match o.object_type {
            ObjectType::Polygon => if o.points@.len() >= 3 {
                (o.points@.len(), (3 * (o.points@.len() - 2)) as nat)
            } else {
                (0nat, 0nat)
            },
            ObjectType::Line => if !degenerate_polyline(point_views(o.points@)) {
                (2 * o.points@.len(), (6 * (o.points@.len() - 1)) as nat)
            } else {
                (0nat, 0nat)
            },
            ObjectType::Point => (0nat, 0nat),
        }
    }
}

/// The mesh sizes after the first `i` objects, with a part dropped
/// when it would push the vertex count past the 32-bit index range.
pub open spec fn tile_mesh_counts(objects: Seq<Object>, i: int) -> (nat, nat)
    decreases i,
{
    if i <= 0 {
        (0nat, 0nat)
    } else {
        let prev = tile_mesh_counts(objects, i - 1);
        let part = object_part_counts(objects[i - 1], i - 1);
        if prev.0 + part.0 >= 0xFFFF_FFFF {
            prev
        } else {
            ((prev.0 + part.0) as nat, (prev.1 + part.1) as nat)
        }
    }
}

/// The running mesh counts never decrease.
proof fn lemma_counts_mono(objects: Seq<Object>, a: int, b: int)
    requires
        0 <= a <= b,
    ensures
        tile_mesh_counts(objects, a).0 <= tile_mesh_counts(objects, b).0,
        tile_mesh_counts(objects, a).1 <= tile_mesh_counts(objects, b).1,
    decreases b,
{
    if a < b {
        lemma_counts_mono(objects, a, b - 1);
    }
}

/// Object `i`'s buffers stand in the tile mesh at the offsets the
/// running counts give: its vertex run, and its index run rebased by
/// the vertex offset, are exactly one fill fan or stroke ribbon.
pub open spec fn part_in_place(m: Mesh, objects: Seq<Object>, extent: u32, i: int) -> bool {
    let prev = tile_mesh_counts(objects, i);
    let part = object_part_counts(objects[i], i);
    let o = objects[i];
    if part.0 == 0 {
        true
    } else {
        let vs = m.vertices@.subrange(prev.0 as int, prev.0 as int + part.0 as int);
        let is = shift_down(
            m.indices@.subrange(prev.1 as int, prev.1 as int + part.1 as int),
            prev.0 as int,
        );
        match o.object_type {
            ObjectType::Polygon => fill_parts_ok(part_ctor(extent, i, o), vs, is, o.points@),
            ObjectType::Line => stroke_parts_ok(part_ctor(extent, i, o), vs, is, o.points@),
            ObjectType::Point => true,
        }
    }
}

/// Tessellate every object of a tile into one mesh.  A degenerate
/// object is skipped (the rest of the tile still renders), as is a
/// feature whose index would not fit the packed feature id.  The mesh
/// holds exactly the kept objects' buffers, in object order: the sizes
/// follow the running counts, and each kept object's run is its own
/// fan or ribbon.
pub fn tessellate_tile(objects: &Vec<Object>, extent: u32) -> (m: Mesh)
    requires
        objects_wf(objects@),
        1 <= extent <= 65536,
    ensures
        mesh_wf(m),
        m.vertices@.len() == tile_mesh_counts(objects@, objects@.len() as int).0,
        m.indices@.len() == tile_mesh_counts(objects@, objects@.len() as int).1,
        forall|i: int|
            0 <= i < objects@.len() && tile_mesh_counts(objects@, i).0 + object_part_counts(
                objects@[i],
                i,
            ).0 < 0xFFFF_FFFF ==> #[trigger] part_in_place(m, objects@, extent, i),
{
    let mut mesh = Mesh { vertices: Vec::new(), indices: Vec::new() };
    let mut i: usize = 0;
    while i < objects.len()
        invariant
            objects_wf(objects@),
            1 <= extent <= 65536,
            i <= objects@.len(),
            mesh_wf(mesh),
            mesh.vertices@.len() == tile_mesh_counts(objects@, i as int).0,
            mesh.indices@.len() == tile_mesh_counts(objects@, i as int).1,
            forall|j: int|
                0 <= j < i && tile_mesh_counts(objects@, j).0 + object_part_counts(
                    objects@[j],
                    j,
                ).0 < 0xFFFF_FFFF ==> #[trigger] part_in_place(mesh, objects@, extent, j),
        decreases objects@.len() - i,
    {
        let o = &objects[i];
        let ghost pre_counts = tile_mesh_counts(objects@, i as int);
        if i < 0x10000 && o.points.len() < 0x4000_0000 {
            let vertex_type = match o.object_type {
                ObjectType::Polygon => VertexType::Polygon,
                ObjectType::Line => VertexType::Line,
                ObjectType::Point => VertexType::Polygon,
            };
            let ctor = LayerVertexCtor {
                tile_id: crate::math::TileId { zoom: 0, x: 0, y: 0 },
                feature_id: i as u32,
                extent,
                vertex_type,
            };
            proof {
                assert(*o == objects@[i as int]);
                assert((*o)@.wf());
                assert forall|k: int| 0 <= k < point_views(o.points@).len() implies -COORD_LIMIT <= (
                #[trigger] point_views(o.points@)[k]).0 <= COORD_LIMIT && -COORD_LIMIT
                    <= point_views(o.points@)[k].1 <= COORD_LIMIT by {
                    assert((*o)@.points == point_views(o.points@));
                    assert((*o)@.points[k] == point_views(o.points@)[k]);
                }
            }
            let part: Result<(Vec<Vertex>, Vec<u32>), TessellationError> = match o.object_type {
                ObjectType::Polygon => tessellate_fill(&ctor, &o.points),
                ObjectType::Line => tessellate_stroke(&ctor, &o.points),
                ObjectType::Point => Err(TessellationError::DegenerateGeometry),
            };
            match part {
                Ok((vs, idx)) => {
                    proof {
                        assert(object_part_counts(objects@[i as int], i as int) == (
                            vs@.len(),
                            idx@.len(),
                        ));
                    }
                    let ghost old_mesh = mesh;
                    let ghost gvs = vs@;
                    let ghost gidx = idx@;
                    mesh = append_part(mesh, vs, idx);
                    proof {
                        lemma_tile_step(
                            old_mesh,
                            mesh,
                            objects@,
                            extent,
                            i as int,
                            gvs,
                            gidx,
                            part_ctor(extent, i as int, objects@[i as int]),
                        );
                    }
                },
                Err(_) => {
                    proof {
                        assert(object_part_counts(objects@[i as int], i as int) == (0nat, 0nat));
                        assert(part_in_place(mesh, objects@, extent, i as int));
                    }
                },
            }
        } else {
            proof {
                assert(object_part_counts(objects@[i as int], i as int) == (0nat, 0nat));
                assert(part_in_place(mesh, objects@, extent, i as int));
            }
        }
        i = i + 1;
    }
    mesh
}

/// One tile-build step: appending object `i`'s buffers places them at
/// the running offsets and leaves every earlier object's run intact.
proof fn lemma_tile_step(
    pre: Mesh,
    post: Mesh,
    objects: Seq<Object>,
    extent: u32,
    i: int,
    vs: Seq<Vertex>,
    is: Seq<u32>,
    ctor: LayerVertexCtor,
)
    requires
        0 <= i < objects.len(),
        pre.vertices@.len() == tile_mesh_counts(objects, i).0,
        pre.indices@.len() == tile_mesh_counts(objects, i).1,
        object_part_counts(objects[i], i) == (vs.len(), is.len()),
        ctor == part_ctor(extent, i, objects[i]),
        (match objects[i].object_type {
            ObjectType::Polygon => fill_parts_ok(ctor, vs, is, objects[i].points@),
            ObjectType::Line => stroke_parts_ok(ctor, vs, is, objects[i].points@),
            ObjectType::Point => vs.len() == 0 && is.len() == 0,
        }),
        pre.vertices@.len() + vs.len() >= 0xFFFF_FFFF ==> post == pre,
        pre.vertices@.len() + vs.len() < 0xFFFF_FFFF ==> post.vertices@ == pre.vertices@ + vs
            && post.indices@ == pre.indices@ + shift_up(is, pre.vertices@.len() as int),
        forall|j: int|
            0 <= j < i && tile_mesh_counts(objects, j).0 + object_part_counts(objects[j], j).0
                < 0xFFFF_FFFF ==> #[trigger] part_in_place(pre, objects, extent, j),
        forall|k: int| 0 <= k < is.len() ==> (#[trigger] is[k]) < vs.len(),
    ensures
        post.vertices@.len() == tile_mesh_counts(objects, i + 1).0,
        post.indices@.len() == tile_mesh_counts(objects, i + 1).1,
        forall|j: int|
            0 <= j < i + 1 && tile_mesh_counts(objects, j).0 + object_part_counts(objects[j], j).0
                < 0xFFFF_FFFF ==> #[trigger] part_in_place(post, objects, extent, j),
{
    let prev = tile_mesh_counts(objects, i);
    let part = object_part_counts(objects[i], i);
    if prev.0 + part.0 >= 0xFFFF_FFFF {
        assert(post == pre);
        assert(tile_mesh_counts(objects, i + 1) == prev);
        assert forall|j: int|
            0 <= j < i + 1 && tile_mesh_counts(objects, j).0 + object_part_counts(objects[j], j).0
                < 0xFFFF_FFFF implies #[trigger] part_in_place(post, objects, extent, j) by {
            if j < i {
                assert(part_in_place(pre, objects, extent, j));
            }
        }
    } else {
        let base = prev.0 as int;
        assert(post.vertices@ == pre.vertices@ + vs);
        assert(post.indices@ == pre.indices@ + shift_up(is, base));
        assert(shift_up(is, base).len() == is.len());
        assert(tile_mesh_counts(objects, i + 1) == ((prev.0 + part.0) as nat, (prev.1
            + part.1) as nat));
        assert forall|j: int|
            0 <= j < i + 1 && tile_mesh_counts(objects, j).0 + object_part_counts(objects[j], j).0
                < 0xFFFF_FFFF implies #[trigger] part_in_place(post, objects, extent, j) by {
            let prevj = tile_mesh_counts(objects, j);
            let partj = object_part_counts(objects[j], j);
            if partj.0 > 0 {
                if j < i {
                    assert(part_in_place(pre, objects, extent, j));
                    assert(tile_mesh_counts(objects, j + 1) == ((prevj.0 + partj.0) as nat, (
                    prevj.1 + partj.1) as nat));
                    lemma_counts_mono(objects, j + 1, i);
                    assert(prevj.0 + partj.0 <= prev.0 && prevj.1 + partj.1 <= prev.1);
                    assert(post.vertices@.subrange(
                        prevj.0 as int,
                        prevj.0 as int + partj.0 as int,
                    ) =~= pre.vertices@.subrange(prevj.0 as int, prevj.0 as int + partj.0 as int));
                    assert(post.indices@.subrange(
                        prevj.1 as int,
                        prevj.1 as int + partj.1 as int,
                    ) =~= pre.indices@.subrange(prevj.1 as int, prevj.1 as int + partj.1 as int));
                } else {
                    assert(j == i);
                    assert(post.vertices@.subrange(base, base + part.0 as int) =~= vs);
                    assert(post.indices@.subrange(
                        prev.1 as int,
                        prev.1 as int + part.1 as int,
                    ) =~= shift_up(is, base));
                    assert(shift_down(shift_up(is, base), base) =~= is) by {
                        assert forall|k: int|
                            0 <= k < is.len() implies shift_down(shift_up(is, base), base)[k]
                            == is[k] by {
                            assert(shift_up(is, base)[k] == ((is[k] + base) as u32));
                            assert(is[k] + base < 0xFFFF_FFFF);
                        }
                    }
                }
            }
        }
    }
}

/// Append one object's buffers to the tile mesh, rebasing the indices.
/// A part that would push the vertex count past the 32-bit index range
/// is dropped.
fn append_part(mesh: Mesh, vs: Vec<Vertex>, idx: Vec<u32>) -> (m: Mesh)
    requires
        mesh_wf(mesh),
        forall|k: int| 0 <= k < idx@.len() ==> (#[trigger] idx@[k]) < vs@.len(),
    ensures
        mesh_wf(m),
        mesh.vertices@.len() + vs@.len() >= 0xFFFF_FFFF ==> m == mesh,
        mesh.vertices@.len() + vs@.len() < 0xFFFF_FFFF ==> m.vertices@ == mesh.vertices@ + vs@
            && m.indices@ == mesh.indices@ + shift_up(idx@, mesh.vertices@.len() as int),
{
    if mesh.vertices.len() >= 0xFFFF_FFFFusize {
        return mesh;
    }
    if vs.len() >= 0xFFFF_FFFFusize - mesh.vertices.len() {
        return mesh;
    }
    let base = mesh.vertices.len();
    let ghost mesh_v0 = mesh.vertices@;
    let ghost mesh_idx0 = mesh.indices@;
    let mut m = mesh;
    let mut i: usize = 0;
    while i < vs.len()
        invariant
            mesh_wf(m),
            i <= vs@.len(),
            m.vertices@ == mesh_v0 + vs@.subrange(0, i as int),
            m.indices@ == mesh_idx0,
            mesh_v0.len() == base,
            base + vs@.len() < 0xFFFF_FFFF,
        decreases vs@.len() - i,
    {
        m.vertices.push(vs[i]);
        proof {
            assert(m.vertices@ =~= mesh_v0 + vs@.subrange(0, i + 1 as int));
        }
        i = i + 1;
    }
    proof {
        assert(vs@.subrange(0, vs@.len() as int) =~= vs@);
    }
    let mut k: usize = 0;
    while k < idx.len()
        invariant
            mesh_wf(m),
            k <= idx@.len(),
            m.vertices@ == mesh_v0 + vs@,
            m.indices@ == mesh_idx0 + shift_up(idx@.subrange(0, k as int), base as int),
            mesh_v0.len() == base,
            base + vs@.len() < 0xFFFF_FFFF,
            forall|t: int| 0 <= t < idx@.len() ==> (#[trigger] idx@[t]) < vs@.len(),
        decreases idx@.len() - k,
    {
        let v = (base as u32) + idx[k];
        m.indices.push(v);
        proof {
            assert(shift_up(idx@.subrange(0, k + 1 as int), base as int)[k as int] == v);
            assert(m.indices@ =~= mesh_idx0 + shift_up(idx@.subrange(0, k + 1 as int), base as int));
        }
        k = k + 1;
    }
    proof {
        assert(shift_up(idx@.subrange(0, idx@.len() as int), base as int) =~= shift_up(
            idx@,
            base as int,
        ));
    }
    m
}

} // verus!
