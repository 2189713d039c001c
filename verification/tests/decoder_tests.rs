use osm::css::{Color, Rule, Stylesheet, Tag};
use osm::object::{ObjectType, Point};
use osm::vector_tile::{decode_tile, DecodeError};

fn put_varint(mut n: u64, out: &mut Vec<u8>) {
    loop {
        let b = (n & 0x7f) as u8;
        n >>= 7;
        if n > 0 {
            out.push(b | 0x80);
        } else {
            out.push(b);
            return;
        }
    }
}

fn zigzag(d: i64) -> u64 {
    ((d << 1) ^ (d >> 63)) as u64
}

fn put_str(bytes: &[u8], out: &mut Vec<u8>) {
    put_varint(bytes.len() as u64, out);
    out.extend_from_slice(bytes);
}

/// One layer, dictionaries ["kind"] / ["road"], one line feature
/// tagged kind=road with points (5,3), (15,3), (10,5).
fn simple_payload() -> Vec<u8> {
    let mut p = Vec::new();
    put_varint(1, &mut p); // layer count
    put_str(b"roads", &mut p);
    put_varint(4096, &mut p); // extent
    put_varint(1, &mut p); // key count
    put_str(b"kind", &mut p);
    put_varint(1, &mut p); // value count
    put_str(b"road", &mut p);
    put_varint(1, &mut p); // feature count
    put_varint(2, &mut p); // geometry class: line
    put_varint(1, &mut p); // tag count
    put_varint(0, &mut p); // key index
    put_varint(0, &mut p); // value index
    put_varint(2, &mut p); // command count
    put_varint(1 | (1 << 3), &mut p); // move, one delta pair
    put_varint(zigzag(5), &mut p);
    put_varint(zigzag(3), &mut p);
    put_varint(2 | (2 << 3), &mut p); // line, two delta pairs
    put_varint(zigzag(10), &mut p);
    put_varint(zigzag(0), &mut p);
    put_varint(zigzag(-5), &mut p);
    put_varint(zigzag(2), &mut p);
    p
}

fn road_style() -> Stylesheet {
    Stylesheet {
        rules: vec![Rule {
            conds: vec![Tag { key: b"kind".to_vec(), value: b"road".to_vec() }],
            min_zoom: 0,
            max_zoom: 22,
            important: false,
            specificity: 1,
            color: Some(Color { r: 80, g: 80, b: 80, a: 255 }),
            width: Some(512),
            z_index: Some(3),
            visible: Some(true),
        }],
        version: 1,
    }
}

#[test]
fn decode_simple_tile() {
    let payload = simple_payload();
    let (objects, extent) = decode_tile(&payload, &road_style(), 7).unwrap();
    assert_eq!(extent, 4096);
    assert_eq!(objects.len(), 1);
    let o = &objects[0];
    assert_eq!(o.object_type, ObjectType::Line);
    assert_eq!(
        o.points,
        vec![
            Point { x: 5, y: 3 },
            Point { x: 15, y: 3 },
            Point { x: 10, y: 5 }
        ]
    );
    assert_eq!(o.tags.len(), 1);
    assert_eq!(o.tags[0].key, b"kind".to_vec());
    assert_eq!(o.tags[0].value, b"road".to_vec());
    assert!(o.selector.visible);
    assert_eq!(o.selector.width, 512);
    assert_eq!(o.selector.z_index, 3);
}

#[test]
fn decode_is_idempotent() {
    let payload = simple_payload();
    let style = road_style();
    let (a, ea) = decode_tile(&payload, &style, 7).unwrap();
    let (b, eb) = decode_tile(&payload, &style, 7).unwrap();
    assert_eq!(ea, eb);
    assert_eq!(a.len(), b.len());
    for (x, y) in a.iter().zip(b.iter()) {
        assert_eq!(x.points, y.points);
        assert_eq!(x.object_type, y.object_type);
        assert_eq!(x.selector, y.selector);
        assert_eq!(x.tags.len(), y.tags.len());
        for (tx, ty) in x.tags.iter().zip(y.tags.iter()) {
            assert_eq!(tx.key, ty.key);
            assert_eq!(tx.value, ty.value);
        }
    }
}

#[test]
fn truncated_payload_is_rejected() {
    let mut payload = simple_payload();
    payload.pop();
    assert_eq!(decode_tile(&payload, &road_style(), 7).unwrap_err(), DecodeError::Truncated);
}

#[test]
fn empty_buffer_is_truncated() {
    assert_eq!(decode_tile(&Vec::new(), &road_style(), 7).unwrap_err(), DecodeError::Truncated);
}

#[test]
fn invalid_tag_index_is_rejected() {
    let mut p = Vec::new();
    put_varint(1, &mut p);
    put_str(b"roads", &mut p);
    put_varint(4096, &mut p);
    put_varint(1, &mut p);
    put_str(b"kind", &mut p);
    put_varint(1, &mut p);
    put_str(b"road", &mut p);
    put_varint(1, &mut p);
    put_varint(2, &mut p);
    put_varint(1, &mut p);
    put_varint(3, &mut p); // key index out of range
    put_varint(0, &mut p);
    assert_eq!(decode_tile(&p, &road_style(), 7).unwrap_err(), DecodeError::InvalidTagIndex);
}

#[test]
fn unknown_geometry_class_is_malformed() {
    let mut p = Vec::new();
    put_varint(1, &mut p);
    put_str(b"roads", &mut p);
    put_varint(4096, &mut p);
    put_varint(0, &mut p);
    put_varint(0, &mut p);
    put_varint(1, &mut p);
    put_varint(7, &mut p); // no such geometry class
    assert_eq!(decode_tile(&p, &road_style(), 7).unwrap_err(), DecodeError::Malformed);
}

#[test]
fn trailing_bytes_are_malformed() {
    let mut payload = simple_payload();
    payload.push(0);
    assert_eq!(decode_tile(&payload, &road_style(), 7).unwrap_err(), DecodeError::Malformed);
}

#[test]
fn non_ascii_layer_name_is_malformed() {
    let mut p = Vec::new();
    put_varint(1, &mut p);
    put_str(&[0xC3, 0xA9], &mut p); // bytes above 127
    put_varint(4096, &mut p);
    assert_eq!(decode_tile(&p, &road_style(), 7).unwrap_err(), DecodeError::Malformed);
}

#[test]
fn geometry_must_start_with_move() {
    let mut p = Vec::new();
    put_varint(1, &mut p);
    put_str(b"roads", &mut p);
    put_varint(4096, &mut p);
    put_varint(0, &mut p);
    put_varint(0, &mut p);
    put_varint(1, &mut p);
    put_varint(2, &mut p); // line feature
    put_varint(0, &mut p); // no tags
    put_varint(1, &mut p); // one command
    put_varint(2 | (1 << 3), &mut p); // line-to before any move
    put_varint(zigzag(1), &mut p);
    put_varint(zigzag(1), &mut p);
    assert_eq!(decode_tile(&p, &road_style(), 7).unwrap_err(), DecodeError::Malformed);
}

#[test]
fn empty_geometry_is_malformed() {
    let mut p = Vec::new();
    put_varint(1, &mut p);
    put_str(b"roads", &mut p);
    put_varint(4096, &mut p);
    put_varint(0, &mut p);
    put_varint(0, &mut p);
    put_varint(1, &mut p);
    put_varint(1, &mut p); // point feature
    put_varint(0, &mut p); // no tags
    put_varint(0, &mut p); // no commands, so no points at all
    assert_eq!(decode_tile(&p, &road_style(), 7).unwrap_err(), DecodeError::Malformed);
}

#[test]
fn tile_without_layers_is_empty() {
    let mut p = Vec::new();
    put_varint(0, &mut p);
    let (objects, extent) = decode_tile(&p, &road_style(), 7).unwrap();
    assert!(objects.is_empty());
    assert_eq!(extent, 4096);
}

#[test]
fn duplicate_tag_key_keeps_first() {
    let mut p = Vec::new();
    put_varint(1, &mut p);
    put_str(b"roads", &mut p);
    put_varint(4096, &mut p);
    put_varint(1, &mut p);
    put_str(b"kind", &mut p);
    put_varint(2, &mut p);
    put_str(b"road", &mut p);
    put_str(b"path", &mut p);
    put_varint(1, &mut p);
    put_varint(1, &mut p); // point feature
    put_varint(2, &mut p); // two tag pairs with the same key
    put_varint(0, &mut p);
    put_varint(0, &mut p);
    put_varint(0, &mut p);
    put_varint(1, &mut p);
    put_varint(1, &mut p);
    put_varint(1 | (1 << 3), &mut p);
    put_varint(zigzag(1), &mut p);
    put_varint(zigzag(1), &mut p);
    let (objects, _) = decode_tile(&p, &road_style(), 7).unwrap();
    assert_eq!(objects[0].tags.len(), 1);
    assert_eq!(objects[0].tags[0].value, b"road".to_vec());
}

#[test]
fn out_of_range_coordinate_is_malformed() {
    let mut p = Vec::new();
    put_varint(1, &mut p);
    put_str(b"roads", &mut p);
    put_varint(4096, &mut p);
    put_varint(0, &mut p);
    put_varint(0, &mut p);
    put_varint(1, &mut p);
    put_varint(1, &mut p); // point feature
    put_varint(0, &mut p); // no tags
    put_varint(1, &mut p); // one command
    put_varint(1 | (1 << 3), &mut p); // move with one delta pair
    put_varint(zigzag(0x200_000), &mut p); // beyond the coordinate bound
    put_varint(zigzag(0), &mut p);
    assert_eq!(decode_tile(&p, &road_style(), 7).unwrap_err(), DecodeError::Malformed);
}

#[test]
fn varint_cut_mid_continuation_is_truncated() {
    let mut p = Vec::new();
    put_varint(1, &mut p);
    put_str(b"roads", &mut p);
    p.push(0x80); // an extent varint that promises more bytes
    assert_eq!(decode_tile(&p, &road_style(), 7).unwrap_err(), DecodeError::Truncated);
}

#[test]
fn layers_must_share_the_extent() {
    let mut p = Vec::new();
    put_varint(2, &mut p);
    put_str(b"a", &mut p);
    put_varint(4096, &mut p);
    put_varint(0, &mut p);
    put_varint(0, &mut p);
    put_varint(0, &mut p);
    put_str(b"b", &mut p);
    put_varint(256, &mut p); // different extent
    put_varint(0, &mut p);
    put_varint(0, &mut p);
    put_varint(0, &mut p);
    assert_eq!(decode_tile(&p, &road_style(), 7).unwrap_err(), DecodeError::Malformed);
}
