use osm::css::Selector;
use osm::math::TileId;
use osm::object::{Object, ObjectType, Point};
use osm::tessellator::{tessellate_fill, tessellate_stroke, tessellate_tile, TessellationError};
use osm::vertex::{LayerVertexCtor, VertexType};

fn ctor(vertex_type: VertexType, feature_id: u32, extent: u32) -> LayerVertexCtor {
    LayerVertexCtor {
        tile_id: TileId { zoom: 0, x: 0, y: 0 },
        feature_id,
        extent,
        vertex_type,
    }
}

#[test]
fn fill_fan_of_a_square() {
    let points = vec![
        Point { x: 0, y: 0 },
        Point { x: 10, y: 0 },
        Point { x: 10, y: 10 },
        Point { x: 0, y: 10 },
    ];
    let (vs, is) = tessellate_fill(&ctor(VertexType::Polygon, 3, 4096), &points).unwrap();
    assert_eq!(vs.len(), 4);
    assert_eq!(is, vec![0, 1, 2, 0, 2, 3]);
    for (v, p) in vs.iter().zip(points.iter()) {
        assert_eq!(v.position, [p.x as i16, p.y as i16]);
        assert_eq!(v.normal, [0, 0]);
        assert_eq!(v.feature_id, 3);
    }
}

#[test]
fn fill_needs_three_points() {
    let points = vec![Point { x: 0, y: 0 }, Point { x: 10, y: 0 }];
    assert_eq!(
        tessellate_fill(&ctor(VertexType::Polygon, 0, 4096), &points).unwrap_err(),
        TessellationError::DegenerateGeometry
    );
}

#[test]
fn stroke_ribbon_of_a_segment() {
    let points = vec![Point { x: 0, y: 0 }, Point { x: 100, y: 0 }];
    let (vs, is) = tessellate_stroke(&ctor(VertexType::Line, 1, 4096), &points).unwrap();
    assert_eq!(vs.len(), 4);
    assert_eq!(is, vec![0, 1, 2, 1, 3, 2]);
    // The unit perpendicular of a rightward segment points up one full
    // unit, which quantizes to the extent.
    assert_eq!(vs[0].normal, [0, 4096]);
    assert_eq!(vs[1].normal, [0, -4096]);
    assert_eq!(vs[2].normal, [0, 4096]);
    assert_eq!(vs[3].normal, [0, -4096]);
    assert_eq!(vs[0].position, [0, 0]);
    assert_eq!(vs[2].position, [100, 0]);
    assert_eq!(vs[0].feature_id, 0x10001);
}

#[test]
fn stroke_rejects_zero_length_segments() {
    let points = vec![
        Point { x: 0, y: 0 },
        Point { x: 0, y: 0 },
        Point { x: 5, y: 5 },
    ];
    assert_eq!(
        tessellate_stroke(&ctor(VertexType::Line, 0, 4096), &points).unwrap_err(),
        TessellationError::DegenerateGeometry
    );
    let short = vec![Point { x: 0, y: 0 }];
    assert_eq!(
        tessellate_stroke(&ctor(VertexType::Line, 0, 4096), &short).unwrap_err(),
        TessellationError::DegenerateGeometry
    );
}

#[test]
fn sharp_interior_angle_stays_bounded() {
    // A nearly complete reversal produces a huge miter, which the
    // clamp bounds to 8 raw units before extent scaling.
    let points = vec![
        Point { x: 0, y: 0 },
        Point { x: 1000, y: 0 },
        Point { x: 0, y: 30 },
    ];
    let extent = 1024u32;
    let (vs, _is) = tessellate_stroke(&ctor(VertexType::Line, 0, extent), &points).unwrap();
    let n = &vs[2].normal; // the interior vertex's extrusion
    let len2 = (n[0] as i64) * (n[0] as i64) + (n[1] as i64) * (n[1] as i64);
    let bound = 8 * extent as i64; // 8.0 units scaled by the extent
    assert!(len2 <= bound * bound, "miter spike {} exceeds {}", len2, bound * bound);
    // The spike really was clamped: it sits near the bound.
    assert!(len2 >= (bound - 64) * (bound - 64) / 2);
}

#[test]
fn tile_mesh_skips_degenerate_objects() {
    let selector = Selector {
        color: osm::css::Color { r: 1, g: 2, b: 3, a: 4 },
        width: 256,
        z_index: 0,
        visible: true,
    };
    let good = Object::new(
        selector,
        vec![
            Point { x: 0, y: 0 },
            Point { x: 10, y: 0 },
            Point { x: 10, y: 10 },
        ],
        Vec::new(),
        ObjectType::Polygon,
    );
    let bad = Object::new(
        selector,
        vec![Point { x: 0, y: 0 }],
        Vec::new(),
        ObjectType::Line,
    );
    let mesh = tessellate_tile(&vec![bad, good], 4096);
    // Only the triangle remains: three vertices, one triangle.
    assert_eq!(mesh.vertices.len(), 3);
    assert_eq!(mesh.indices, vec![0, 1, 2]);
    // The surviving object keeps its own feature index.
    assert_eq!(mesh.vertices[0].feature_id, 1);
}
