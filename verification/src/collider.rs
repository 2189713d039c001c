//! The per-tile spatial index: point-containment queries for pointer
//! interaction.
//!
//! The collider is built once per tile from the same objects that are
//! rendered, and holds indices into the tile's object list, never
//! references back.  Hit-testing is exact integer arithmetic on the raw
//! contours, not on the quantized render vertices: polygons by the
//! even-odd crossing rule, lines by a corridor of the resolved stroke
//! width around each segment (squared-distance comparisons, cross
//! multiplied so no division or rounding occurs), point features by a
//! disc of the same width.  A query returns the hit objects
//! front-to-back: descending z-order, later objects first among equals.

use vstd::prelude::*;
use crate::object::{COORD_LIMIT, Object, ObjectM, ObjectType, Point, object_views, point_views};

verus! {

/// One indexed shape: a copy of the object's geometry and the paint
/// facts hit-testing needs.  Stroke widths are in 1/256ths of a
/// tile-local unit, so a corridor reaches `width / 512` units to each
/// side of its segment.
#[derive(Clone, Debug)]
pub struct ColliderShape {
    pub points: Vec<Point>,
    pub object_type: ObjectType,
    pub width: u32,
    pub z_index: i32,
}

/// The per-tile spatial index.
#[derive(Clone, Debug)]
pub struct Collider {
    pub shapes: Vec<ColliderShape>,
}

/// Whether the edge from `a` to `b` crosses the ray cast from `p`
/// toward positive x, by the even-odd rule's strict crossing test.
pub open spec fn edge_crosses(a: (int, int), b: (int, int), p: (int, int)) -> bool {
    ((a.1 > p.1) != (b.1 > p.1)) && {
        let d = b.1 - a.1;
        if d > 0 {
            (p.0 - a.0) * d < (b.0 - a.0) * (p.1 - a.1)
        } else {
            (p.0 - a.0) * d > (b.0 - a.0) * (p.1 - a.1)
        }
    }
}

/// How many of the first `i` edges of the closed contour cross the ray
/// from `p`.
pub open spec fn crossings(points: Seq<(int, int)>, p: (int, int), i: int) -> nat
    decreases i,
{
    if i <= 0 {
        0nat
    } else {
        let a = points[i - 1];
        let b = if i == points.len() {
            points[0]
        } else {
            points[i]
        };
        crossings(points, p, i - 1) + if edge_crosses(a, b, p) {
            1nat
        } else {
            0nat
        }
    }
}

/// Even-odd containment of `p` in the closed contour.
pub open spec fn polygon_contains(points: Seq<(int, int)>, p: (int, int)) -> bool {
    points.len() >= 3 && crossings(points, p, points.len() as int) % 2 == 1
}

/// Whether `p` lies within `w / 512` tile units of the segment from
/// `a` to `b` (`w` in 1/256ths, halved for each side of the stroke).
pub open spec fn segment_near(a: (int, int), b: (int, int), p: (int, int), w: int) -> bool {
    let abx = b.0 - a.0;
    let aby = b.1 - a.1;
    let apx = p.0 - a.0;
    let apy = p.1 - a.1;
    let bpx = p.0 - b.0;
    let bpy = p.1 - b.1;
    let dot = apx * abx + apy * aby;
    let ab2 = abx * abx + aby * aby;
    if dot <= 0 {
        (apx * apx + apy * apy) * (512 * 512) <= w * w
    } else if dot >= ab2 {
        (bpx * bpx + bpy * bpy) * (512 * 512) <= w * w
    } else {
        let cross = apx * aby - apy * abx;
        cross * cross * (512 * 512) <= w * w * ab2
    }
}

/// Whether `p` lies within the corridor of any segment of the polyline.
pub open spec fn polyline_near(points: Seq<(int, int)>, p: (int, int), w: int) -> bool {
    exists|k: int|
        0 <= k < points.len() - 1 && segment_near(#[trigger] points[k], points[k + 1], p, w)
}

/// Whether `p` lies within `w / 512` units of any vertex of the
/// feature.
pub open spec fn any_point_near(points: Seq<(int, int)>, p: (int, int), w: int) -> bool {
    exists|k: int|
        0 <= k < points.len() && ({
            let dx = p.0 - (#[trigger] points[k]).0;
            let dy = p.1 - points[k].1;
            (dx * dx + dy * dy) * (512 * 512) <= w * w
        })
}

impl ColliderShape {
    pub open spec fn wf(self) -> bool {
        forall|i: int|
            0 <= i < self.points@.len() ==> -COORD_LIMIT <= (#[trigger] self.points@[i]).x
                <= COORD_LIMIT && -COORD_LIMIT <= self.points@[i].y <= COORD_LIMIT
    }

    /// Whether the query point hits this shape.
    pub open spec fn hit(self, p: (int, int)) -> bool {
        match self.object_type {
            ObjectType::Polygon => polygon_contains(point_views(self.points@), p),
            ObjectType::Line => polyline_near(point_views(self.points@), p, self.width as int),
            ObjectType::Point => any_point_near(point_views(self.points@), p, self.width as int),
        }
    }

    /// What the shape of one object records.
    pub open spec fn of_object(self, o: ObjectM) -> bool {
        &&& point_views(self.points@) == o.points
        &&& self.object_type == o.object_type
        &&& self.width == o.selector.width
        &&& self.z_index == o.selector.z_index
    }
}

/// The front-to-back order on hit results: higher z first, later
/// object first among equal z.
pub open spec fn front_before(z1: int, i1: int, z2: int, i2: int) -> bool {
    z1 > z2 || (z1 == z2 && i1 > i2)
}

impl Collider {
    pub open spec fn wf(self) -> bool {
        forall|i: int| 0 <= i < self.shapes@.len() ==> (#[trigger] self.shapes@[i]).wf()
    }

    /// Every object recorded under its own index.
    pub open spec fn of_objects(self, objects: Seq<ObjectM>) -> bool {
        &&& self.shapes@.len() == objects.len()
        &&& forall|i: int|
            0 <= i < objects.len() ==> (#[trigger] self.shapes@[i]).of_object(objects[i])
    }

    /// Build the index for one tile's objects.
    pub fn new(objects: &Vec<Object>) -> (c: Collider)
        requires
            crate::object::objects_wf(objects@),
        ensures
            c.wf(),
            c.of_objects(object_views(objects@)),
    {
        let mut shapes: Vec<ColliderShape> = Vec::new();
        let mut i: usize = 0;
        while i < objects.len()
            invariant
                crate::object::objects_wf(objects@),
                i <= objects@.len(),
                shapes@.len() == i,
                forall|k: int| 0 <= k < i ==> (#[trigger] shapes@[k]).wf(),
                forall|k: int|
                    0 <= k < i ==> (#[trigger] shapes@[k]).of_object(object_views(objects@)[k]),
            decreases objects@.len() - i,
        {
            let o = &objects[i];
            let mut pts: Vec<Point> = Vec::new();
            let mut j: usize = 0;
            while j < o.points.len()
                invariant
                    j <= o.points@.len(),
                    pts@ == o.points@.subrange(0, j as int),
                decreases o.points@.len() - j,
            {
                pts.push(o.points[j]);
                proof {
                    assert(pts@ =~= o.points@.subrange(0, j + 1 as int));
                }
                j = j + 1;
            }
            proof {
                assert(pts@ =~= o.points@);
            }
            let shape = ColliderShape {
                points: pts,
                object_type: o.object_type,
                width: o.selector.width,
                z_index: o.selector.z_index,
            };
            proof {
                assert(*o == objects@[i as int]);
                assert(objects@[i as int]@.wf());
                assert(object_views(objects@)[i as int] == objects@[i as int]@);
                assert(shape.of_object(object_views(objects@)[i as int]));
                assert forall|k: int|
                    0 <= k < shape.points@.len() implies -COORD_LIMIT <= (
                #[trigger] shape.points@[k]).x <= COORD_LIMIT && -COORD_LIMIT <= shape.points@[k].y
                    <= COORD_LIMIT by {
                    assert(objects@[i as int]@.points[k] == (
                        shape.points@[k].x as int,
                        shape.points@[k].y as int,
                    ));
                }
            }
            shapes.push(shape);
            i = i + 1;
        }
        Collider { shapes }
    }

    /// All objects under the query point, topmost first: descending
    /// z-order, and of two objects with the same z the later-drawn one
    /// (the higher index) first.  Hidden objects are still indexed.
    pub fn get_hovered_objects(&self, px: i32, py: i32) -> (r: Vec<usize>)
        requires
            self.wf(),
            -COORD_LIMIT <= px <= COORD_LIMIT,
            -COORD_LIMIT <= py <= COORD_LIMIT,
        ensures
            forall|k: int| 0 <= k < r@.len() ==> (#[trigger] r@[k]) < self.shapes@.len(),
            forall|i: int|
                0 <= i < self.shapes@.len() ==> (r@.contains(i as usize) <==> (
                #[trigger] self.shapes@[i]).hit((px as int, py as int))),
            forall|k1: int, k2: int|
                #![trigger r@[k1], r@[k2]]
                0 <= k1 < k2 < r@.len() ==> front_before(
                    self.shapes@[r@[k1] as int].z_index as int,
                    r@[k1] as int,
                    self.shapes@[r@[k2] as int].z_index as int,
                    r@[k2] as int,
                ),
            forall|k1: int, k2: int| 0 <= k1 < k2 < r@.len() ==> r@[k1] != r@[k2],
    {
        let p = (px, py);
        let mut out: Vec<usize> = Vec::new();
        let mut i: usize = 0;
        while i < self.shapes.len()
            invariant
                self.wf(),
                -COORD_LIMIT <= px <= COORD_LIMIT,
                -COORD_LIMIT <= py <= COORD_LIMIT,
                i <= self.shapes@.len(),
                forall|k: int| 0 <= k < out@.len() ==> (#[trigger] out@[k]) < i,
                forall|j: int|
                    0 <= j < i ==> (out@.contains(j as usize) <==> (#[trigger] self.shapes@[j]).hit(
                        (px as int, py as int),
                    )),
                forall|k1: int, k2: int|
                    #![trigger out@[k1], out@[k2]]
                    0 <= k1 < k2 < out@.len() ==> front_before(
                        self.shapes@[out@[k1] as int].z_index as int,
                        out@[k1] as int,
                        self.shapes@[out@[k2] as int].z_index as int,
                        out@[k2] as int,
                    ),
            decreases self.shapes@.len() - i,
        {
            let hit = shape_hit(&self.shapes[i], px, py);
            if hit {
                out = insert_by_rank(&self.shapes, out, i);
            } else {
                proof {
                    assert(forall|k: int|
                        0 <= k < out@.len() ==> (#[trigger] out@[k]) != i as usize);
                    assert(!out@.contains(i as usize));
                }
            }
            i = i + 1;
        }
        proof {
            assert forall|k1: int, k2: int| 0 <= k1 < k2 < out@.len() implies out@[k1] != out@[k2]
                by {
                assert(front_before(
                    self.shapes@[out@[k1] as int].z_index as int,
                    out@[k1] as int,
                    self.shapes@[out@[k2] as int].z_index as int,
                    out@[k2] as int,
                ));
            }
        }
        out
    }
}

/// In a front-to-back ordered hit list, a hit with strictly higher
/// z-order always stands before one with lower z-order: the topmost
/// object comes first.
pub proof fn lemma_topmost_first(
    shapes: Seq<ColliderShape>,
    r: Seq<usize>,
    k1: int,
    k2: int,
)
    requires
        forall|a: int, b: int|
            #![trigger r[a], r[b]]
            0 <= a < b < r.len() ==> front_before(
                shapes[r[a] as int].z_index as int,
                r[a] as int,
                shapes[r[b] as int].z_index as int,
                r[b] as int,
            ),
        0 <= k1 < r.len(),
        0 <= k2 < r.len(),
        (r[k1] as int) < shapes.len(),
        (r[k2] as int) < shapes.len(),
        shapes[r[k1] as int].z_index > shapes[r[k2] as int].z_index,
    ensures
        k1 < k2,
{
    if k2 < k1 {
        assert(front_before(
            shapes[r[k2] as int].z_index as int,
            r[k2] as int,
            shapes[r[k1] as int].z_index as int,
            r[k1] as int,
        ));
    }
}

/// Insert index `x` (not yet present, smaller than every held index)
/// into a front-to-back ordered hit list, keeping the order.
fn insert_by_rank(shapes: &Vec<ColliderShape>, out: Vec<usize>, x: usize) -> (r: Vec<usize>)
    requires
        x < shapes@.len(),
        forall|k: int| 0 <= k < out@.len() ==> (#[trigger] out@[k]) < x,
        forall|k1: int, k2: int|
            #![trigger out@[k1], out@[k2]]
            0 <= k1 < k2 < out@.len() ==> front_before(
                shapes@[out@[k1] as int].z_index as int,
                out@[k1] as int,
                shapes@[out@[k2] as int].z_index as int,
                out@[k2] as int,
            ),
    ensures
        r@.len() == out@.len() + 1,
        forall|v: usize| r@.contains(v) <==> (out@.contains(v) || v == x),
        forall|k: int| 0 <= k < r@.len() ==> (#[trigger] r@[k]) < x + 1,
        forall|k1: int, k2: int|
            #![trigger r@[k1], r@[k2]]
            0 <= k1 < k2 < r@.len() ==> front_before(
                shapes@[r@[k1] as int].z_index as int,
                r@[k1] as int,
                shapes@[r@[k2] as int].z_index as int,
                r@[k2] as int,
            ),
{
    let mut pos: usize = 0;
    while pos < out.len() && ranks_before(shapes, out[pos], x)
        invariant
            x < shapes@.len(),
            pos <= out@.len(),
            forall|k: int| 0 <= k < out@.len() ==> (#[trigger] out@[k]) < shapes@.len(),
            forall|k: int| 0 <= k < out@.len() ==> (#[trigger] out@[k]) < x,
            forall|k: int|
                0 <= k < pos ==> front_before(
                    shapes@[(#[trigger] out@[k]) as int].z_index as int,
                    out@[k] as int,
                    shapes@[x as int].z_index as int,
                    x as int,
                ),
        decreases out@.len() - pos,
    {
        pos = pos + 1;
    }
    proof {
        if pos < out@.len() {
            assert(front_before(
                shapes@[x as int].z_index as int,
                x as int,
                shapes@[out@[pos as int] as int].z_index as int,
                out@[pos as int] as int,
            ));
        }
    }
    let ghost old_out = out@;
    let mut r = out;
    r.insert(pos, x);
    proof {
        assert(r@ == old_out.insert(pos as int, x));
        assert(r@.len() == old_out.len() + 1);
        assert forall|k: int| 0 <= k < r@.len() implies (#[trigger] r@[k]) < x + 1 by {
            if k < pos {
                assert(r@[k] == old_out[k]);
            } else if k == pos {
                assert(r@[k] == x);
            } else {
                assert(r@[k] == old_out[k - 1]);
            }
        }
        assert forall|v: usize| r@.contains(v) <==> (old_out.contains(v) || v == x) by {
            if r@.contains(v) {
                let k = choose|k: int| 0 <= k < r@.len() && r@[k] == v;
                if k < pos {
                    assert(old_out[k] == v);
                } else if k == pos {
                } else {
                    assert(old_out[k - 1] == v);
                }
            }
            if old_out.contains(v) {
                let k = choose|k: int| 0 <= k < old_out.len() && old_out[k] == v;
                if k < pos {
                    assert(r@[k] == v);
                } else {
                    assert(r@[k + 1] == v);
                }
            }
            if v == x {
                assert(r@[pos as int] == v);
            }
        }
        assert forall|k1: int, k2: int|
            #![trigger r@[k1], r@[k2]]
            0 <= k1 < k2 < r@.len() implies front_before(
                shapes@[r@[k1] as int].z_index as int,
                r@[k1] as int,
                shapes@[r@[k2] as int].z_index as int,
                r@[k2] as int,
            ) by {
            if k1 < pos {
                assert(r@[k1] == old_out[k1]);
            } else if k1 == pos {
                assert(r@[k1] == x);
            } else {
                assert(r@[k1] == old_out[k1 - 1]);
            }
            if k2 < pos {
                assert(r@[k2] == old_out[k2]);
            } else if k2 == pos {
                assert(r@[k2] == x);
            } else {
                assert(r@[k2] == old_out[k2 - 1]);
            }
            if k1 == pos && k2 > pos {
                assert(front_before(
                    shapes@[x as int].z_index as int,
                    x as int,
                    shapes@[old_out[k2 - 1] as int].z_index as int,
                    old_out[k2 - 1] as int,
                ));
            }
        }
    }
    r
}

/// Whether the hit at index `a` is drawn in front of the one at `x`.
fn ranks_before(shapes: &Vec<ColliderShape>, a: usize, x: usize) -> (r: bool)
    requires
        a < shapes@.len(),
        x < shapes@.len(),
    ensures
        r == front_before(
            shapes@[a as int].z_index as int,
            a as int,
            shapes@[x as int].z_index as int,
            x as int,
        ),
{
    let az = shapes[a].z_index;
    let xz = shapes[x].z_index;
    az > xz || (az == xz && a > x)
}

/// Whether the query point hits one shape, by its geometry class.
fn shape_hit(shape: &ColliderShape, px: i32, py: i32) -> (r: bool)
    requires
        shape.wf(),
        -COORD_LIMIT <= px <= COORD_LIMIT,
        -COORD_LIMIT <= py <= COORD_LIMIT,
    ensures
        r == shape.hit((px as int, py as int)),
{
    match shape.object_type {
        ObjectType::Polygon => polygon_contains_exec(&shape.points, px, py),
        ObjectType::Line => polyline_near_exec(&shape.points, px, py, shape.width),
        ObjectType::Point => any_point_near_exec(&shape.points, px, py, shape.width),
    }
}

/// Shared bound for the query point and contour coordinates.
spec fn pts_bounded(points: Seq<Point>) -> bool {
    forall|i: int|
        0 <= i < points.len() ==> -COORD_LIMIT <= (#[trigger] points[i]).x <= COORD_LIMIT
            && -COORD_LIMIT <= points[i].y <= COORD_LIMIT
}

/// One even-odd crossing test in machine integers.
fn edge_crosses_exec(a: Point, b: Point, px: i32, py: i32) -> (r: bool)
    requires
        -COORD_LIMIT <= a.x <= COORD_LIMIT,
        -COORD_LIMIT <= a.y <= COORD_LIMIT,
        -COORD_LIMIT <= b.x <= COORD_LIMIT,
        -COORD_LIMIT <= b.y <= COORD_LIMIT,
        -COORD_LIMIT <= px <= COORD_LIMIT,
        -COORD_LIMIT <= py <= COORD_LIMIT,
    ensures
        r == edge_crosses((a.x as int, a.y as int), (b.x as int, b.y as int), (
            px as int,
            py as int,
        )),
{
    if (a.y > py) == (b.y > py) {
        return false;
    }
    let d: i64 = b.y as i64 - a.y as i64;
    proof {
        assert(-0x400_0000_0000 <= (px as int - a.x as int) * (b.y as int - a.y as int)
            <= 0x400_0000_0000 && -0x400_0000_0000 <= (b.x as int - a.x as int) * (py as int
            - a.y as int) <= 0x400_0000_0000) by (nonlinear_arith)
            requires
                -0x200_000 <= px as int - a.x as int <= 0x200_000,
                -0x200_000 <= b.y as int - a.y as int <= 0x200_000,
                -0x200_000 <= b.x as int - a.x as int <= 0x200_000,
                -0x200_000 <= py as int - a.y as int <= 0x200_000,
        ;
    }
    let lhs: i64 = (px as i64 - a.x as i64) * d;
    let rhs: i64 = (b.x as i64 - a.x as i64) * (py as i64 - a.y as i64);
    if d > 0 {
        lhs < rhs
    } else {
        lhs > rhs
    }
}

/// Even-odd containment in machine integers.
fn polygon_contains_exec(points: &Vec<Point>, px: i32, py: i32) -> (r: bool)
    requires
        pts_bounded(points@),
        -COORD_LIMIT <= px <= COORD_LIMIT,
        -COORD_LIMIT <= py <= COORD_LIMIT,
    ensures
        r == polygon_contains(point_views(points@), (px as int, py as int)),
{
    let ghost pv = point_views(points@);
    let n = points.len();
    if n < 3 {
        return false;
    }
    let mut odd = false;
    let mut i: usize = 0;
    while i < n
        invariant
            n == points@.len() >= 3,
            pv == point_views(points@),
            pts_bounded(points@),
            -COORD_LIMIT <= px <= COORD_LIMIT,
            -COORD_LIMIT <= py <= COORD_LIMIT,
            i <= n,
            odd == (crossings(pv, (px as int, py as int), i as int) % 2 == 1),
        decreases n - i,
    {
        let a = points[i];
        let b = if i + 1 == n {
            points[0]
        } else {
            points[i + 1]
        };
        proof {
            assert(pv[i as int] == (a.x as int, a.y as int));
            if i + 1 == n {
                assert(pv[0] == (b.x as int, b.y as int));
            } else {
                assert(pv[i as int + 1] == (b.x as int, b.y as int));
            }
        }
        if edge_crosses_exec(a, b, px, py) {
            odd = !odd;
        }
        i = i + 1;
    }
    odd
}

/// One corridor test in machine integers.
fn segment_near_exec(a: Point, b: Point, px: i32, py: i32, w: u32) -> (r: bool)
    requires
        -COORD_LIMIT <= a.x <= COORD_LIMIT,
        -COORD_LIMIT <= a.y <= COORD_LIMIT,
        -COORD_LIMIT <= b.x <= COORD_LIMIT,
        -COORD_LIMIT <= b.y <= COORD_LIMIT,
        -COORD_LIMIT <= px <= COORD_LIMIT,
        -COORD_LIMIT <= py <= COORD_LIMIT,
    ensures
        r == segment_near((a.x as int, a.y as int), (b.x as int, b.y as int), (
            px as int,
            py as int,
        ), w as int),
{
    let abx: i64 = b.x as i64 - a.x as i64;
    let aby: i64 = b.y as i64 - a.y as i64;
    let apx: i64 = px as i64 - a.x as i64;
    let apy: i64 = py as i64 - a.y as i64;
    let bpx: i64 = px as i64 - b.x as i64;
    let bpy: i64 = py as i64 - b.y as i64;
    proof {
        lemma_products_bounded(abx as int, aby as int, apx as int, apy as int, bpx as int, bpy as int);
    }
    let dot: i64 = apx * abx + apy * aby;
    let ab2: i64 = abx * abx + aby * aby;
    proof {
        lemma_width_square_fits(w as int);
    }
    let ww: u64 = (w as u64) * (w as u64);
    if dot <= 0 {
        let d2: i64 = apx * apx + apy * apy;
        let scaled: i128 = (d2 as i128) * 262144;
        scaled <= ww as i128
    } else if dot >= ab2 {
        let d2: i64 = bpx * bpx + bpy * bpy;
        let scaled: i128 = (d2 as i128) * 262144;
        scaled <= ww as i128
    } else {
        let cross: i64 = apx * aby - apy * abx;
        proof {
            lemma_cross_square_fits(cross as int, ww as int, ab2 as int);
        }
        let c2: i128 = (cross as i128) * (cross as i128);
        proof {
            assert(c2 <= 0x800_0000_0000i128 * 0x800_0000_0000i128);
            assert(0x800_0000_0000i128 * 0x800_0000_0000i128 * 262144
                < 0x4000_0000_0000_0000_0000_0000_0000_0000i128) by (nonlinear_arith);
        }
        let scaled: i128 = c2 * 262144;
        let rhs: i128 = (ww as i128) * (ab2 as i128);
        scaled <= rhs
    }
}

/// The square of a 32-bit stroke width fits in 64 bits.
proof fn lemma_width_square_fits(w: int)
    requires
        0 <= w < 0x1_0000_0000,
    ensures
        0 <= w * w,
        w * w <= 0xFFFF_FFFF * 0xFFFF_FFFF,
{
    assert(0 <= w * w && w * w <= 0xFFFF_FFFF * 0xFFFF_FFFF) by (nonlinear_arith)
        requires
            0 <= w <= 0xFFFF_FFFF,
    ;
}

/// The corridor comparison's 128-bit products cannot overflow.
proof fn lemma_cross_square_fits(cross: int, ww: int, ab2: int)
    requires
        -0x800_0000_0000 <= cross <= 0x800_0000_0000,
        0 <= ww <= 0xFFFF_FFFF * 0xFFFF_FFFF,
        0 <= ab2 <= 0x8000_0000_0000,
    ensures
        0 <= cross * cross,
        cross * cross <= 0x800_0000_0000 * 0x800_0000_0000,
        0 <= ww * ab2,
        ww * ab2 <= 0x1_0000_0000_0000_0000 * 0x8000_0000_0000,
{
    assert(0 <= cross * cross && cross * cross <= 0x800_0000_0000 * 0x800_0000_0000)
        by (nonlinear_arith)
        requires
            -0x800_0000_0000 <= cross <= 0x800_0000_0000,
    ;
    assert(0 <= ww * ab2 && ww * ab2 <= 0x1_0000_0000_0000_0000 * 0x8000_0000_0000)
        by (nonlinear_arith)
        requires
            0 <= ww,
            ww <= 0xFFFF_FFFF * 0xFFFF_FFFF,
            0 <= ab2,
            ab2 <= 0x8000_0000_0000,
    ;
}

/// The intermediate products of the corridor test all fit in 63 bits.
proof fn lemma_products_bounded(abx: int, aby: int, apx: int, apy: int, bpx: int, bpy: int)
    requires
        -0x200_000 <= abx <= 0x200_000,
        -0x200_000 <= aby <= 0x200_000,
        -0x200_000 <= apx <= 0x200_000,
        -0x200_000 <= apy <= 0x200_000,
        -0x200_000 <= bpx <= 0x200_000,
        -0x200_000 <= bpy <= 0x200_000,
    ensures
        -0x400_0000_0000 <= apx * abx <= 0x400_0000_0000,
        -0x400_0000_0000 <= apy * aby <= 0x400_0000_0000,
        0 <= abx * abx <= 0x400_0000_0000,
        0 <= aby * aby <= 0x400_0000_0000,
        0 <= apx * apx <= 0x400_0000_0000,
        0 <= apy * apy <= 0x400_0000_0000,
        0 <= bpx * bpx <= 0x400_0000_0000,
        0 <= bpy * bpy <= 0x400_0000_0000,
        -0x400_0000_0000 <= apx * aby <= 0x400_0000_0000,
        -0x400_0000_0000 <= apy * abx <= 0x400_0000_0000,
{
    assert(-0x400_0000_0000 <= apx * abx <= 0x400_0000_0000 && -0x400_0000_0000 <= apy * aby
        <= 0x400_0000_0000 && 0 <= abx * abx <= 0x400_0000_0000 && 0 <= aby * aby <= 0x400_0000_0000
        && 0 <= apx * apx <= 0x400_0000_0000 && 0 <= apy * apy <= 0x400_0000_0000 && 0 <= bpx * bpx
        <= 0x400_0000_0000 && 0 <= bpy * bpy <= 0x400_0000_0000 && -0x400_0000_0000 <= apx * aby
        <= 0x400_0000_0000 && -0x400_0000_0000 <= apy * abx <= 0x400_0000_0000) by (nonlinear_arith)
        requires
            -0x200_000 <= abx <= 0x200_000,
            -0x200_000 <= aby <= 0x200_000,
            -0x200_000 <= apx <= 0x200_000,
            -0x200_000 <= apy <= 0x200_000,
            -0x200_000 <= bpx <= 0x200_000,
            -0x200_000 <= bpy <= 0x200_000,
    ;
}

/// Corridor test against every segment.
fn polyline_near_exec(points: &Vec<Point>, px: i32, py: i32, w: u32) -> (r: bool)
    requires
        pts_bounded(points@),
        -COORD_LIMIT <= px <= COORD_LIMIT,
        -COORD_LIMIT <= py <= COORD_LIMIT,
    ensures
        r == polyline_near(point_views(points@), (px as int, py as int), w as int),
{
    let ghost pv = point_views(points@);
    let n = points.len();
    if n < 2 {
        return false;
    }
    let mut i: usize = 0;
    while i < n - 1
        invariant
            n == points@.len() >= 2,
            pv == point_views(points@),
            pts_bounded(points@),
            -COORD_LIMIT <= px <= COORD_LIMIT,
            -COORD_LIMIT <= py <= COORD_LIMIT,
            i <= n - 1,
            forall|k: int|
                0 <= k < i ==> !segment_near(#[trigger] pv[k], pv[k + 1], (px as int, py as int), w as int),
        decreases n - 1 - i,
    {
        let a = points[i];
        let b = points[i + 1];
        proof {
            assert(pv[i as int] == (a.x as int, a.y as int));
            assert(pv[i as int + 1] == (b.x as int, b.y as int));
        }
        if segment_near_exec(a, b, px, py, w) {
            return true;
        }
        i = i + 1;
    }
    false
}

/// Disc test against every vertex.
fn any_point_near_exec(points: &Vec<Point>, px: i32, py: i32, w: u32) -> (r: bool)
    requires
        pts_bounded(points@),
        -COORD_LIMIT <= px <= COORD_LIMIT,
        -COORD_LIMIT <= py <= COORD_LIMIT,
    ensures
        r == any_point_near(point_views(points@), (px as int, py as int), w as int),
{
    let ghost pv = point_views(points@);
    let n = points.len();
    let mut i: usize = 0;
    while i < n
        invariant
            n == points@.len(),
            pv == point_views(points@),
            pts_bounded(points@),
            -COORD_LIMIT <= px <= COORD_LIMIT,
            -COORD_LIMIT <= py <= COORD_LIMIT,
            i <= n,
            forall|k: int|
                0 <= k < i ==> !({
                    let dx = px as int - (#[trigger] pv[k]).0;
                    let dy = py as int - pv[k].1;
                    (dx * dx + dy * dy) * (512 * 512) <= w as int * w as int
                }),
        decreases n - i,
    {
        let q = points[i];
        proof {
            assert(pv[i as int] == (q.x as int, q.y as int));
        }
        let dx: i64 = px as i64 - q.x as i64;
        let dy: i64 = py as i64 - q.y as i64;
        proof {
            assert(dx * dx >= 0 && dx * dx <= 0x400_0000_0000i64 && dy * dy >= 0 && dy * dy
                <= 0x400_0000_0000i64) by (nonlinear_arith)
                requires
                    -0x200_000 <= dx <= 0x200_000i64,
                    -0x200_000 <= dy <= 0x200_000i64,
            ;
        }
        let d2: i64 = dx * dx + dy * dy;
        proof {
            lemma_width_square_fits(w as int);
        }
        let ww: u64 = (w as u64) * (w as u64);
        let scaled: i128 = (d2 as i128) * 262144;
        if scaled <= ww as i128 {
            return true;
        }
        i = i + 1;
    }
    false
}

} // verus!
