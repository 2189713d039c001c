use osm::math::{Screen, TileId, locate_world_point, pow2_u64, MAX_ZOOM, WORLD_ONE};

#[test]
fn pow2_values() {
    assert_eq!(pow2_u64(0), 1);
    assert_eq!(pow2_u64(1), 2);
    assert_eq!(pow2_u64(22), 4_194_304);
    assert_eq!(pow2_u64(32), 4_294_967_296);
}

#[test]
fn tile_id_validity() {
    assert!(TileId::new(0, 0, 0).is_some());
    assert!(TileId::new(3, 7, 7).is_some());
    assert!(TileId::new(3, 8, 0).is_none());
    assert!(TileId::new(3, 0, 8).is_none());
    assert!(TileId::new(MAX_ZOOM, 4_194_303, 4_194_303).is_some());
    assert!(TileId::new(23, 0, 0).is_none());
}

fn test_screen() -> Screen {
    Screen {
        width: 800,
        height: 600,
        tile_size: 384,
        center_x: WORLD_ONE / 2,
        center_y: WORLD_ONE / 2,
    }
}

#[test]
fn transform_round_trip_across_zooms() {
    let screen = test_screen();
    for zoom in [0u8, 1, 5, 11, 17, 22] {
        let n = pow2_u64(zoom);
        let tile = TileId {
            zoom,
            x: (n / 2) as u32,
            y: (n / 3) as u32,
        };
        let t = screen.tile_to_global_space(&tile, 4096);
        for (lx, ly) in [(0u32, 0u32), (1, 4095), (2048, 2048), (4096, 0)] {
            let g = t.to_global(lx, ly);
            let back = t.to_tile(g.0, g.1);
            assert_eq!(back, Some((lx, ly)));
        }
    }
}

#[test]
fn transform_rejects_outside_points() {
    let screen = test_screen();
    let tile = TileId { zoom: 2, x: 1, y: 1 };
    let t = screen.tile_to_global_space(&tile, 4096);
    assert_eq!(t.to_tile(t.tx.wrapping_sub(1), t.ty), None);
    assert_eq!(t.to_tile(t.tx + t.extent as u64 + 1, t.ty), None);
}

#[test]
fn boundaries_are_distinct_and_clamped() {
    let screen = test_screen();
    let tiles = screen.get_tile_boundaries_for_zoom_level(2, 1);
    for (i, a) in tiles.iter().enumerate() {
        assert!(a.zoom == 2 && a.x < 4 && a.y < 4);
        for (j, b) in tiles.iter().enumerate() {
            if i != j {
                assert!(a != b);
            }
        }
    }
    // Zoom 2 has a 4x4 grid; the padded viewport covers all of it.
    assert_eq!(tiles.len(), 16);
}

#[test]
fn boundaries_at_zoom_zero() {
    let screen = test_screen();
    let tiles = screen.get_tile_boundaries_for_zoom_level(0, 1);
    assert_eq!(tiles.len(), 1);
    assert_eq!(tiles[0], TileId { zoom: 0, x: 0, y: 0 });
}

#[test]
fn boundaries_clamp_at_the_world_edge() {
    // The camera sits at the far west edge: the range is clamped to
    // column zero rather than wrapping around.
    let screen = Screen {
        width: 800,
        height: 600,
        tile_size: 384,
        center_x: 0,
        center_y: 0,
    };
    let tiles = screen.get_tile_boundaries_for_zoom_level(5, 2);
    assert!(tiles.iter().all(|t| t.x <= 5 && t.y <= 5));
    assert!(tiles.iter().any(|t| t.x == 0 && t.y == 0));
}

#[test]
fn locate_world_point_center() {
    let (tile, lx, ly) = locate_world_point(WORLD_ONE / 2, WORLD_ONE / 4, 2, 4096);
    assert_eq!(tile, TileId { zoom: 2, x: 2, y: 1 });
    assert_eq!((lx, ly), (0, 0));
    let (tile2, lx2, _ly2) = locate_world_point(WORLD_ONE / 2 + WORLD_ONE / 16, 0, 2, 4096);
    assert_eq!(tile2, TileId { zoom: 2, x: 2, y: 0 });
    // One sixteenth of the world is a quarter tile at zoom 2.
    assert_eq!(lx2, 1024);
}
