//! The decoded feature model: one `Object` per geographic feature.

use vstd::prelude::*;
use crate::css::{Selector, Tag, TagM};

verus! {

/// Geometry coordinates are bounded so that every downstream squared
/// term (tessellation normals, hit-test distances) stays exact.
pub const COORD_LIMIT: i32 = 0x10_0000;

/// The geometry class of a feature.
#[derive(Clone, Copy, Debug, PartialEq, Eq, Structural)]
pub enum ObjectType {
    Polygon,
    Line,
    Point,
}

/// One vertex of a feature's geometry, in tile-local integer
/// coordinates (extent units).
#[derive(Clone, Copy, Debug, PartialEq, Eq, Structural)]
pub struct Point {
    pub x: i32,
    pub y: i32,
}

/// One decoded geographic feature: its geometry, its tag mapping and
/// the selector the style engine resolved for it.  Immutable once
/// decoded.
#[derive(Clone, Debug)]
pub struct Object {
    pub selector: Selector,
    pub points: Vec<Point>,
    pub tags: Vec<Tag>,
    pub object_type: ObjectType,
}

/// The mathematical value of an `Object`.
pub struct ObjectM {
    pub selector: Selector,
    pub points: Seq<(int, int)>,
    pub tags: Seq<TagM>,
    pub object_type: ObjectType,
}

/// The mathematical values of a point list.
pub open spec fn point_views(points: Seq<Point>) -> Seq<(int, int)> {
    points.map_values(|p: Point| (p.x as int, p.y as int))
}

impl View for Object {
    type V = ObjectM;

    open spec fn view(&self) -> ObjectM {
        ObjectM {
            selector: self.selector,
            points: point_views(self.points@),
            tags: crate::css::tag_views(self.tags@),
            object_type: self.object_type,
        }
    }
}

/// The views of an object list.
pub open spec fn object_views(objects: Seq<Object>) -> Seq<ObjectM> {
    objects.map_values(|o: Object| o@)
}

/// Every object in the list well formed.
pub open spec fn objects_wf(objects: Seq<Object>) -> bool {
    forall|i: int| 0 <= i < objects.len() ==> (#[trigger] objects[i])@.wf()
}

impl ObjectM {
    /// Every coordinate within bounds, and the tag keys unique.
    pub open spec fn wf(self) -> bool {
        &&& forall|i: int|
            0 <= i < self.points.len() ==> -COORD_LIMIT <= (#[trigger] self.points[i]).0
                <= COORD_LIMIT && -COORD_LIMIT <= self.points[i].1 <= COORD_LIMIT
        &&& forall|i: int, j: int|
            0 <= i < j < self.tags.len() ==> (#[trigger] self.tags[i]).key != (
            #[trigger] self.tags[j]).key
    }
}

impl Object {
    pub open spec fn wf(self) -> bool {
        self@.wf()
    }

    pub fn new(
        selector: Selector,
        points: Vec<Point>,
        tags: Vec<Tag>,
        object_type: ObjectType,
    ) -> (o: Object)
        ensures
            o.selector == selector,
            o.points == points,
            o.tags == tags,
            o.object_type == object_type,
    {
        Object { selector, points, tags, object_type }
    }
}

} // verus!
