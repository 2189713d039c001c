use osm::cache::{LoadOutcome, Tile, TileCache, ViewRect};
use osm::collider::Collider;
use osm::css::{Color, Rule, Stylesheet, Tag};
use osm::math::TileId;
use osm::tessellator::Mesh;
use osm::vector_tile::DecodeError;

fn empty_tile(id: TileId) -> Tile {
    Tile {
        tile_id: id,
        extent: 4096,
        objects: Vec::new(),
        mesh: Mesh { vertices: Vec::new(), indices: Vec::new() },
        collider: Collider { shapes: Vec::new() },
        loaded_to_gpu: false,
    }
}

fn id(x: u32, y: u32) -> TileId {
    TileId { zoom: 4, x, y }
}

fn everything() -> ViewRect {
    ViewRect { zoom: 4, min_x: 0, max_x: 15, min_y: 0, max_y: 15 }
}

#[test]
fn at_most_one_fetch_per_tile() {
    let mut cache = TileCache::new(4);
    let a = id(1, 1);
    // The first miss commissions the fetch; later misses wait.
    assert_eq!(cache.get_or_load(&a, 0), LoadOutcome::StartFetch);
    assert_eq!(cache.get_or_load(&a, 0), LoadOutcome::Pending);
    assert_eq!(cache.get_or_load(&a, 5), LoadOutcome::Pending);
    // Once the tile arrives, hits are immediate.
    cache.insert_tile(empty_tile(a), &everything());
    assert_eq!(cache.get_or_load(&a, 6), LoadOutcome::Cached);
}

#[test]
fn failed_fetch_backs_off_then_retries() {
    let mut cache = TileCache::new(4);
    let a = id(2, 2);
    assert_eq!(cache.get_or_load(&a, 0), LoadOutcome::StartFetch);
    cache.report_tile_failure(&a, 100);
    // While backing off, no new fetch is commissioned.
    assert_eq!(cache.get_or_load(&a, 50), LoadOutcome::Pending);
    assert_eq!(cache.get_or_load(&a, 99), LoadOutcome::Pending);
    // After the retry time the address is fetched again.
    assert_eq!(cache.get_or_load(&a, 100), LoadOutcome::StartFetch);
}

#[test]
fn try_get_tile_is_non_blocking_and_complete() {
    let mut cache = TileCache::new(4);
    let a = id(3, 3);
    assert!(cache.try_get_tile(&a).is_none());
    // try_get_tile never commissions a fetch.
    assert_eq!(cache.get_or_load(&a, 0), LoadOutcome::StartFetch);
    assert!(cache.try_get_tile(&a).is_none());
    cache.insert_tile(empty_tile(a), &everything());
    let t = cache.try_get_tile(&a).unwrap();
    assert_eq!(t.tile_id, a);
    // The published tile is complete: collider and mesh agree with the
    // object list.
    assert_eq!(t.collider.shapes.len(), t.objects.len());
    assert!(t.mesh.indices.iter().all(|&i| (i as usize) < t.mesh.vertices.len()));
}

#[test]
fn built_tile_is_fully_constructed() {
    // A payload with one polygon feature, decoded through the whole
    // pipeline.
    let mut p = Vec::new();
    // layer count, name, extent
    p.push(1);
    p.push(4);
    p.extend_from_slice(b"land");
    p.extend_from_slice(&[0x80, 0x20]); // varint 4096
    p.push(0); // no keys
    p.push(0); // no values
    p.push(1); // one feature
    p.push(3); // polygon
    p.push(0); // no tags
    p.push(1); // one command
    p.push(1 | (3 << 3)); // move with three deltas
    p.extend_from_slice(&[2, 2]); // (1, 1)
    p.extend_from_slice(&[20, 0]); // (10, 0)
    p.extend_from_slice(&[1, 20]); // (-1, 10)
    let style = Stylesheet {
        rules: vec![Rule {
            conds: Vec::<Tag>::new(),
            min_zoom: 0,
            max_zoom: 22,
            important: false,
            specificity: 0,
            color: Some(Color { r: 9, g: 9, b: 9, a: 255 }),
            width: None,
            z_index: None,
            visible: Some(true),
        }],
        version: 1,
    };
    let tile = Tile::build(id(0, 0), &p, &style).unwrap();
    assert_eq!(tile.objects.len(), 1);
    assert_eq!(tile.collider.shapes.len(), 1);
    assert_eq!(tile.mesh.vertices.len(), 3);
    assert_eq!(tile.mesh.indices.len(), 3);
    assert!(!tile.loaded_to_gpu);
    assert_eq!(tile.extent, 4096);

    // A malformed payload builds nothing at all.
    let mut bad = p.clone();
    bad.pop();
    assert_eq!(Tile::build(id(0, 0), &bad, &style).unwrap_err(), DecodeError::Truncated);
}

#[test]
fn cache_never_exceeds_its_bound() {
    let mut cache = TileCache::new(2);
    let view = ViewRect { zoom: 4, min_x: 0, max_x: 3, min_y: 0, max_y: 3 };
    assert_eq!(cache.insert_tile(empty_tile(id(0, 0)), &view), None);
    assert_eq!(cache.insert_tile(empty_tile(id(1, 0)), &view), None);
    // A third insertion evicts exactly one tile.
    let evicted = cache.insert_tile(empty_tile(id(2, 0)), &view);
    assert!(evicted.is_some());
    assert_eq!(cache.entries.len(), 2);
    assert!(cache.try_get_tile(&id(2, 0)).is_some());
}

#[test]
fn eviction_prefers_tiles_outside_the_viewport() {
    let mut cache = TileCache::new(2);
    let view = ViewRect { zoom: 4, min_x: 0, max_x: 1, min_y: 0, max_y: 1 };
    let inside = id(0, 0);
    let outside = id(9, 9);
    cache.insert_tile(empty_tile(outside), &view);
    cache.insert_tile(empty_tile(inside), &view);
    // The outside tile goes, even though it is neither oldest-inserted
    // nor most recently used.
    let evicted = cache.insert_tile(empty_tile(id(1, 1)), &view);
    assert_eq!(evicted, Some(outside));
    assert!(cache.try_get_tile(&inside).is_some());
    assert!(cache.try_get_tile(&outside).is_none());
}

#[test]
fn eviction_takes_the_furthest_tile_first() {
    let mut cache = TileCache::new(2);
    let view = ViewRect { zoom: 4, min_x: 0, max_x: 1, min_y: 0, max_y: 1 };
    let near = id(3, 0); // two columns outside
    let far = id(9, 0); // eight columns outside
    cache.insert_tile(empty_tile(far), &view);
    cache.insert_tile(empty_tile(near), &view);
    let evicted = cache.insert_tile(empty_tile(id(0, 0)), &view);
    assert_eq!(evicted, Some(far));
}

#[test]
fn eviction_breaks_ties_by_least_recently_used() {
    let mut cache = TileCache::new(2);
    let view = ViewRect { zoom: 4, min_x: 0, max_x: 15, min_y: 0, max_y: 15 };
    let a = id(0, 0);
    let b = id(1, 0);
    cache.insert_tile(empty_tile(a), &view);
    cache.insert_tile(empty_tile(b), &view);
    // Touch a, so b becomes the least recently used.
    assert_eq!(cache.get_or_load(&a, 0), LoadOutcome::Cached);
    let evicted = cache.insert_tile(empty_tile(id(2, 0)), &view);
    assert_eq!(evicted, Some(b));
}

#[test]
fn replacing_a_resident_tile_evicts_nothing() {
    let mut cache = TileCache::new(1);
    let a = id(5, 5);
    assert_eq!(cache.insert_tile(empty_tile(a), &everything()), None);
    assert_eq!(cache.insert_tile(empty_tile(a), &everything()), None);
    assert_eq!(cache.entries.len(), 1);
}

#[test]
fn eviction_does_not_disturb_other_fetches() {
    let mut cache = TileCache::new(1);
    let flying = id(7, 7);
    assert_eq!(cache.get_or_load(&flying, 0), LoadOutcome::StartFetch);
    cache.insert_tile(empty_tile(id(0, 0)), &everything());
    cache.insert_tile(empty_tile(id(1, 0)), &everything());
    // The fetch for the other address is still in flight.
    assert_eq!(cache.get_or_load(&flying, 1), LoadOutcome::Pending);
}
