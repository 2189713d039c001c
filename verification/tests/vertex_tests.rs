use osm::math::TileId;
use osm::vertex::{
    clamp_normal, isqrt, isqrt_ceil, pack_feature_id, sat_pos, scale_component, LayerVertexCtor,
    VertexType, LINE_NORMAL_LIMIT, POLYGON_NORMAL_LIMIT,
};

#[test]
fn integer_square_roots() {
    assert_eq!(isqrt(0), 0);
    assert_eq!(isqrt(1), 1);
    assert_eq!(isqrt(8), 2);
    assert_eq!(isqrt(9), 3);
    assert_eq!(isqrt(10), 3);
    assert_eq!(isqrt_ceil(1), 1);
    assert_eq!(isqrt_ceil(8), 3);
    assert_eq!(isqrt_ceil(9), 3);
    assert_eq!(isqrt_ceil(10), 4);
}

#[test]
fn short_normal_is_unchanged() {
    assert_eq!(clamp_normal(100, -100, LINE_NORMAL_LIMIT), (100, -100));
    assert_eq!(clamp_normal(0, 0, LINE_NORMAL_LIMIT), (0, 0));
    assert_eq!(clamp_normal(2048, 0, LINE_NORMAL_LIMIT), (2048, 0));
}

#[test]
fn sharp_corner_normal_is_clamped_but_keeps_direction() {
    // A miter spike of length 50000 fixed-point units (about 195 raw
    // units) against the 8-unit line limit.
    let (cx, cy) = clamp_normal(30000, 40000, LINE_NORMAL_LIMIT);
    // The clamped length never exceeds the limit (2048 = 8.0 units).
    let len2 = (cx as i64) * (cx as i64) + (cy as i64) * (cy as i64);
    assert!(len2 <= 2048 * 2048);
    // And it is not degenerate: nearly the full limit survives.
    assert!(len2 >= 2000 * 2000);
    // Direction is preserved: the unit vectors agree almost exactly.
    let dot = (cx as f64 * 30000.0 + cy as f64 * 40000.0)
        / ((len2 as f64).sqrt() * 50000.0);
    assert!(dot > 0.999, "direction drifted: dot product {}", dot);
    // Signs are preserved exactly.
    assert!(cx > 0 && cy > 0);
    let (nx, ny) = clamp_normal(-30000, 40000, LINE_NORMAL_LIMIT);
    assert!(nx < 0 && ny > 0);
}

#[test]
fn polygon_strokes_use_the_tighter_limit() {
    let (cx, cy) = clamp_normal(30000, 40000, POLYGON_NORMAL_LIMIT);
    let len2 = (cx as i64) * (cx as i64) + (cy as i64) * (cy as i64);
    assert!(len2 <= 768 * 768);
    assert!(len2 >= 700 * 700);
}

#[test]
fn feature_id_packing() {
    assert_eq!(pack_feature_id(VertexType::Polygon, 5), 5);
    assert_eq!(pack_feature_id(VertexType::Line, 5), 0x10005);
    assert_eq!(pack_feature_id(VertexType::Line, 0xFFFF), 0x1FFFF);
}

#[test]
fn position_saturation() {
    assert_eq!(sat_pos(100), 100);
    assert_eq!(sat_pos(-100), -100);
    assert_eq!(sat_pos(40000), 32767);
    assert_eq!(sat_pos(-40000), -32768);
}

#[test]
fn normal_scaling_saturates() {
    // 1.0 fixed-point unit at extent 4096 quantizes to 4096.
    assert_eq!(scale_component(256, 4096), 4096);
    assert_eq!(scale_component(-256, 4096), -4096);
    // 8.0 units at extent 4096 exceed the 16-bit range.
    assert_eq!(scale_component(2048, 4096), 32767);
    assert_eq!(scale_component(-2048, 4096), -32768);
    assert_eq!(scale_component(0, 4096), 0);
}

#[test]
fn vertex_construction() {
    let tile = TileId { zoom: 3, x: 1, y: 2 };
    let mut ctor = LayerVertexCtor::new(&tile, 4096);
    assert_eq!(ctor.feature_id, 0);
    assert_eq!(ctor.vertex_type, VertexType::Polygon);
    ctor.feature_id = 7;
    ctor.vertex_type = VertexType::Line;
    let v = ctor.new_vertex(10, 20, 0, 256);
    assert_eq!(v.position, [10, 20]);
    assert_eq!(v.normal, [0, 4096]);
    assert_eq!(v.feature_id, 0x10007);
}
