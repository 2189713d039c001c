use osm::collider::Collider;
use osm::css::{Color, Selector};
use osm::object::{Object, ObjectType, Point};

fn selector(z_index: i32, width: u32) -> Selector {
    Selector {
        color: Color { r: 0, g: 0, b: 0, a: 255 },
        width,
        z_index,
        visible: true,
    }
}

fn square(x0: i32, y0: i32, x1: i32, y1: i32, z: i32) -> Object {
    Object::new(
        selector(z, 256),
        vec![
            Point { x: x0, y: y0 },
            Point { x: x1, y: y0 },
            Point { x: x1, y: y1 },
            Point { x: x0, y: y1 },
        ],
        Vec::new(),
        ObjectType::Polygon,
    )
}

#[test]
fn hover_returns_topmost_polygon_first() {
    // Two overlapping squares; the second has the higher z-order.
    let objects = vec![square(0, 0, 100, 100, 1), square(50, 50, 150, 150, 5)];
    let collider = Collider::new(&objects);
    let hits = collider.get_hovered_objects(75, 75);
    assert_eq!(hits, vec![1, 0]);
    // A point inside only the first square.
    assert_eq!(collider.get_hovered_objects(25, 25), vec![0]);
    // A point inside neither.
    assert_eq!(collider.get_hovered_objects(200, 200), Vec::<usize>::new());
}

#[test]
fn equal_z_puts_later_object_first() {
    let objects = vec![square(0, 0, 100, 100, 3), square(0, 0, 100, 100, 3)];
    let collider = Collider::new(&objects);
    assert_eq!(collider.get_hovered_objects(10, 10), vec![1, 0]);
}

#[test]
fn point_in_polygon_is_exact() {
    let tri = Object::new(
        selector(0, 256),
        vec![
            Point { x: 0, y: 0 },
            Point { x: 10, y: 0 },
            Point { x: 0, y: 10 },
        ],
        Vec::new(),
        ObjectType::Polygon,
    );
    let collider = Collider::new(&vec![tri]);
    assert_eq!(collider.get_hovered_objects(2, 2), vec![0]);
    assert_eq!(collider.get_hovered_objects(8, 8), Vec::<usize>::new());
}

#[test]
fn line_corridor_matches_stroke_width() {
    // Width 512 in 1/256ths reaches one tile unit to each side.
    let line = Object::new(
        selector(0, 512),
        vec![Point { x: 0, y: 0 }, Point { x: 100, y: 0 }],
        Vec::new(),
        ObjectType::Line,
    );
    let collider = Collider::new(&vec![line]);
    assert_eq!(collider.get_hovered_objects(50, 1), vec![0]);
    assert_eq!(collider.get_hovered_objects(50, 2), Vec::<usize>::new());
    // Beyond the endpoint the corridor is a disc around the end.
    assert_eq!(collider.get_hovered_objects(101, 0), vec![0]);
    assert_eq!(collider.get_hovered_objects(103, 0), Vec::<usize>::new());
}

#[test]
fn point_feature_hit_as_disc() {
    let dot = Object::new(
        selector(0, 1024),
        vec![Point { x: 40, y: 40 }],
        Vec::new(),
        ObjectType::Point,
    );
    let collider = Collider::new(&vec![dot]);
    assert_eq!(collider.get_hovered_objects(41, 41), vec![0]);
    assert_eq!(collider.get_hovered_objects(44, 40), Vec::<usize>::new());
}

#[test]
fn hidden_objects_are_still_indexed() {
    let mut hidden = square(0, 0, 100, 100, 2);
    hidden.selector.visible = false;
    let collider = Collider::new(&vec![hidden]);
    assert_eq!(collider.get_hovered_objects(10, 10), vec![0]);
}
