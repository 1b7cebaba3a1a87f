use maplibre::coords::{
    create_zoom_bounds, zoom_bound, Quadkey, TileAddressingScheme, TileCoords, ViewRegion,
    WorldTileCoords, ZoomLevel,
};

fn wt(x: i32, y: i32, z: u8) -> WorldTileCoords {
    WorldTileCoords { x, y, z: ZoomLevel::new(z) }
}

#[test]
fn test_quad_key() {
    assert_eq!(
        TileCoords { x: 0, y: 0, z: ZoomLevel::from(1) }
            .into_world_tile(TileAddressingScheme::TMS)
            .unwrap()
            .build_quad_key(),
        Some(Quadkey::new(&[ZoomLevel::from(2)]))
    );
    assert_eq!(
        TileCoords { x: 0, y: 1, z: ZoomLevel::from(1) }
            .into_world_tile(TileAddressingScheme::TMS)
            .unwrap()
            .build_quad_key(),
        Some(Quadkey::new(&[ZoomLevel::from(0)]))
    );
    assert_eq!(
        TileCoords { x: 1, y: 1, z: ZoomLevel::from(1) }
            .into_world_tile(TileAddressingScheme::TMS)
            .unwrap()
            .build_quad_key(),
        Some(Quadkey::new(&[ZoomLevel::from(1)]))
    );
    assert_eq!(
        TileCoords { x: 1, y: 0, z: ZoomLevel::from(1) }
            .into_world_tile(TileAddressingScheme::TMS)
            .unwrap()
            .build_quad_key(),
        Some(Quadkey::new(&[ZoomLevel::from(3)]))
    );
}

#[test]
fn test_view_region() {
    let zoom: f64 = 0.0;
    let z: u8 = 0;
    let tile_scale: f64 = (2.0f64).powf(z as f64 - zoom) / 512.0;
    let min = wt((0.0 * tile_scale) as i32, (0.0 * tile_scale) as i32, z);
    let max = wt((2000.0 * tile_scale) as i32, (2000.0 * tile_scale) as i32, z);
    for tile_coords in ViewRegion::new(min, max, 1, ZoomLevel::new(z)).iter() {
        println!("({}, {}, {})", tile_coords.x, tile_coords.y, tile_coords.z.0);
    }
}

#[test]
fn view_region_enumeration_agrees_with_membership() {
    // The bounding box [0,0]-[2000,2000] at zoom 0 spans tiles (0,0)..(3,3);
    // padding 1 widens each axis to 6 tiles.
    let region = ViewRegion::new(wt(0, 0, 0), wt(3, 3, 0), 1, ZoomLevel::new(0));
    let tiles = region.iter();
    assert_eq!(tiles.len(), 36);
    for t in &tiles {
        assert!(region.is_in_view(t));
    }
    // One step beyond the padded edge on each side is out of view.
    assert!(!region.is_in_view(&wt(-2, 0, 0)));
    assert!(!region.is_in_view(&wt(5, 0, 0)));
    assert!(!region.is_in_view(&wt(0, -2, 0)));
    assert!(!region.is_in_view(&wt(0, 5, 0)));
    // The corners of the padded region are in view and enumerated.
    assert!(tiles.contains(&wt(-1, -1, 0)));
    assert!(tiles.contains(&wt(4, 4, 0)));
    // A different zoom level is never in view.
    assert!(!region.is_in_view(&wt(0, 0, 1)));
}

#[test]
fn tile_world_round_trip_both_schemes() {
    for scheme in [TileAddressingScheme::XYZ, TileAddressingScheme::TMS] {
        for (x, y, z) in [(0, 0, 0), (1, 0, 1), (5, 2, 3), (17421, 11360, 15)] {
            let t = TileCoords { x, y, z: ZoomLevel::new(z) };
            let w = t.into_world_tile(scheme).unwrap();
            assert_eq!(w.into_tile(scheme), Some(t));
        }
    }
}

#[test]
fn out_of_bounds_tile_fails_conversion() {
    let t = TileCoords { x: 5, y: 5, z: ZoomLevel::new(0) };
    assert_eq!(t.into_world_tile(TileAddressingScheme::XYZ), None);
    assert_eq!(t.into_world_tile(TileAddressingScheme::TMS), None);
    let w = wt(5, 5, 0);
    assert_eq!(w.into_tile(TileAddressingScheme::XYZ), None);
    // A negative coordinate is off the grid under every scheme.
    assert_eq!(wt(-1, 0, 3).into_tile(TileAddressingScheme::TMS), None);
}

#[test]
fn boundary_zoom_level_round_trip() {
    // At the deepest valid level the grid bound approaches the signed
    // 32-bit range; conversions must still be exact.
    let z = ZoomLevel::new(31);
    let edge = (1u32 << 31) - 1;
    let t = TileCoords { x: edge, y: 0, z };
    let w = t.into_world_tile(TileAddressingScheme::XYZ).unwrap();
    assert_eq!(w.x, i32::MAX);
    assert_eq!(w.into_tile(TileAddressingScheme::XYZ), Some(t));
    let tms = TileCoords { x: 0, y: 0, z };
    let w2 = tms.into_world_tile(TileAddressingScheme::TMS).unwrap();
    assert_eq!(w2.y, i32::MAX);
    assert_eq!(w2.into_tile(TileAddressingScheme::TMS), Some(tms));
}

#[test]
fn children_and_parent() {
    for z in [0u8, 3, 15, 30] {
        let w = wt(0, 0, z);
        let children = w.get_children();
        assert_eq!(children[0], wt(0, 0, z + 1));
        assert_eq!(children[1], wt(1, 0, z + 1));
        assert_eq!(children[2], wt(1, 1, z + 1));
        assert_eq!(children[3], wt(0, 1, z + 1));
        for c in children {
            assert_eq!(c.get_parent(), Some(w));
        }
    }
    assert_eq!(wt(0, 0, 0).get_parent(), None);
    assert_eq!(wt(7, 7, 0).get_parent(), None);
    // Parent coordinates floor toward the containing tile, negatives included.
    assert_eq!(wt(-1, -2, 5).get_parent(), Some(wt(-1, -1, 4)));
    assert_eq!(wt(5, 4, 3).get_parent(), Some(wt(2, 2, 2)));
}

#[test]
fn quad_key_shares_prefix_with_parent() {
    let w = wt(5, 3, 4);
    let p = w.get_parent().unwrap();
    let wk = w.build_quad_key().unwrap();
    let pk = p.build_quad_key().unwrap();
    assert_eq!(wk.0[0].0, 4);
    assert_eq!(pk.0[0].0, 3);
    // The parent's encoded path is a prefix of the tile's.
    for j in 1..=3usize {
        assert_eq!(pk.0[j].0, wk.0[j].0);
    }
    assert!(pk.prefix_matches(&wk));
    assert!(wk.prefix_matches(&pk));
    // Keys of different lengths are never value-equal, even related ones.
    assert_ne!(pk, wk);
    // An unrelated tile's key diverges on a shared level.
    let other = wt(12, 3, 4).build_quad_key().unwrap();
    assert!(!other.prefix_matches(&pk));
}

#[test]
fn quad_key_prefix_comparison() {
    let short = Quadkey::new(&[ZoomLevel::from(2)]);
    let longer = Quadkey::new(&[ZoomLevel::from(2), ZoomLevel::from(3)]);
    let diverging = Quadkey::new(&[ZoomLevel::from(3)]);
    // Keys compare equal up to the shorter key's length: the
    // ancestor/descendant test.
    assert!(short.prefix_matches(&longer));
    assert!(longer.prefix_matches(&short));
    assert!(!short.prefix_matches(&diverging));
    assert!(!diverging.prefix_matches(&longer));
    // Value equality distinguishes the lengths.
    assert_ne!(short, longer);
    assert_eq!(short, Quadkey::new(&[ZoomLevel::from(2)]));
    // The root key's empty path is a prefix of every key.
    let root = Quadkey::new(&[]);
    assert!(root.prefix_matches(&longer));
    assert!(longer.prefix_matches(&root));
}

#[test]
fn quad_key_out_of_bounds() {
    assert!(wt(-1, 0, 2).build_quad_key().is_none());
    assert!(wt(4, 0, 2).build_quad_key().is_none());
    assert!(wt(3, 3, 2).build_quad_key().is_some());
}

#[test]
fn zoom_bounds_table() {
    let table = create_zoom_bounds(32);
    assert_eq!(table.len(), 32);
    assert_eq!(table[0], 1);
    assert_eq!(table[5], 32);
    assert_eq!(table[31], 0x8000_0000);
    assert_eq!(zoom_bound(ZoomLevel::new(15)), 32768);
}

#[test]
fn zoom_level_checked_arithmetic() {
    assert_eq!(ZoomLevel::new(5).checked_add(3), Some(ZoomLevel::new(8)));
    assert_eq!(ZoomLevel::new(31).checked_add(1), None);
    assert_eq!(ZoomLevel::new(30).checked_add(1), Some(ZoomLevel::new(31)));
    assert_eq!(ZoomLevel::new(5).checked_sub(5), Some(ZoomLevel::new(0)));
    assert_eq!(ZoomLevel::new(0).checked_sub(1), None);
    assert!(ZoomLevel::new(0).is_root());
    assert!(!ZoomLevel::new(1).is_root());
}

#[test]
fn aligned_raster_corners() {
    let aligned = wt(5, 7, 4).into_aligned();
    assert_eq!(aligned.upper_right(), wt(5, 6, 4));
    // The origin is upper-left and y grows downward: "lower" is y + 1.
    assert_eq!(aligned.lower_left(), wt(4, 7, 4));
    assert_eq!(aligned.lower_right(), wt(5, 7, 4));
    assert_eq!(aligned.upper_left(), wt(4, 6, 4));
    let negative = wt(-3, -3, 4).into_aligned();
    assert_eq!(negative.upper_left(), wt(-4, -4, 4));
}
