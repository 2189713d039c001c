use osm::cache::Tile;
use osm::collider::Collider;
use osm::css::{Color, Selector};
use osm::feature_collection::FeatureCollection;
use osm::math::TileId;
use osm::object::{Object, ObjectType, Point};
use osm::tessellator::Mesh;

fn selector(z_index: i32, r: u8) -> Selector {
    Selector {
        color: Color { r, g: 10, b: 20, a: 255 },
        width: 300,
        z_index,
        visible: true,
    }
}

fn tile_with(selectors: &[Selector]) -> Tile {
    let objects: Vec<Object> = selectors
        .iter()
        .map(|s| {
            Object::new(
                *s,
                vec![Point { x: 0, y: 0 }],
                Vec::new(),
                ObjectType::Point,
            )
        })
        .collect();
    let collider = Collider::new(&objects);
    Tile {
        tile_id: TileId { zoom: 1, x: 0, y: 0 },
        extent: 4096,
        objects,
        mesh: Mesh { vertices: Vec::new(), indices: Vec::new() },
        collider,
        loaded_to_gpu: false,
    }
}

#[test]
fn collection_flattens_visible_tiles() {
    let mut fc = FeatureCollection::new();
    assert!(fc.get_features().is_empty());
    fc.add_tile(&tile_with(&[selector(1, 1), selector(2, 2)]));
    fc.add_tile(&tile_with(&[selector(3, 3)]));
    assert_eq!(fc.get_features().len(), 3);
    assert_eq!(fc.get_features()[2].color.r, 3);
}

#[test]
fn style_buffer_is_packed_back_to_front() {
    let mut fc = FeatureCollection::new();
    fc.add_tile(&tile_with(&[selector(5, 50), selector(1, 10)]));
    let buf = fc.assemble_style_buffer(10);
    assert_eq!(buf.len(), 24);
    // The z=1 feature paints first, the z=5 feature last.
    assert_eq!(buf[0], 10); // red channel of the first record
    assert_eq!(buf[5], 1); // its z-order word
    assert_eq!(buf[12], 50);
    assert_eq!(buf[17], 5);
    // Fixed-stride record layout.
    assert_eq!(&buf[0..7], &[10, 10, 20, 255, 300, 1, 1]);
    assert_eq!(&buf[7..12], &[0, 0, 0, 0, 0]);
}

#[test]
fn style_buffer_truncates_lowest_z_first() {
    let mut fc = FeatureCollection::new();
    fc.add_tile(&tile_with(&[selector(5, 50), selector(1, 10), selector(9, 90)]));
    let buf = fc.assemble_style_buffer(2);
    // Only two records remain, and the z=1 feature was dropped.
    assert_eq!(buf.len(), 24);
    assert_eq!(buf[0], 50);
    assert_eq!(buf[12], 90);
}

#[test]
fn equal_z_keeps_collection_order() {
    let mut fc = FeatureCollection::new();
    fc.add_tile(&tile_with(&[selector(4, 1), selector(4, 2)]));
    let buf = fc.assemble_style_buffer(10);
    assert_eq!(buf[0], 1);
    assert_eq!(buf[12], 2);
}

#[test]
fn negative_z_is_carried_as_a_word() {
    let mut fc = FeatureCollection::new();
    fc.add_tile(&tile_with(&[selector(-1, 7)]));
    let buf = fc.assemble_style_buffer(10);
    assert_eq!(buf[5], (-1i32) as u32);
}

#[test]
fn empty_collection_packs_nothing() {
    let fc = FeatureCollection::new();
    assert!(fc.assemble_style_buffer(10).is_empty());
}
