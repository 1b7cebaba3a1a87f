use maplibre::apc::{ApcBus, TagFilter};
use maplibre::cache::{TileCache, TileState};
use maplibre::coords::{TileAddressingScheme, ViewRegion, WorldTileCoords, ZoomLevel};
use maplibre::example::fetch_munich_tiles;
use maplibre::glyph::{hash_glyphrange, hash_u16s};
use maplibre::populate::PopulateWorldSystem;
use maplibre::request::{
    LayerTessellateMessage, TessellateMessage, TileFetchResult, TileRequest, TileRequestState,
    TileTessellateMessage,
};
use maplibre::scheduler::{CooperativeScheduleMethod, ScheduleMethod, Scheduler, WorkUnit};
use maplibre::geometry_index::{index_layer_features, GeometryIndex, IndexedFeature};
use maplibre::layer::{Feature, GeometryType, Layer, TilePoint};
use maplibre::source::{Source, SourceUrl};

fn wt(x: i32, y: i32, z: u8) -> WorldTileCoords {
    WorldTileCoords { x, y, z: ZoomLevel::new(z) }
}

fn request_for(coords: WorldTileCoords) -> TileRequest {
    TileRequest::new(coords, vec!["water".to_string(), "boundary".to_string()])
}

#[test]
fn duplicate_request_issues_one_fetch() {
    let mut state = TileRequestState::new();
    let coords = wt(1, 2, 3);
    let first = state.start_tile_request(request_for(coords));
    assert!(first.is_some());
    // The identical request while the first is in flight is refused: only
    // one transport call is ever made for the coordinate.
    let second = state.start_tile_request(request_for(coords));
    assert_eq!(second, None);
    // Once the first finishes, the coordinate can be requested again.
    let finished = state.finish_tile_request(first.unwrap());
    assert_eq!(finished.unwrap().coords, coords);
    assert!(state.start_tile_request(request_for(coords)).is_some());
}

#[test]
fn request_ids_are_distinguishing() {
    let mut state = TileRequestState::new();
    let a = state.start_tile_request(request_for(wt(0, 0, 1))).unwrap();
    let b = state.start_tile_request(request_for(wt(1, 0, 1))).unwrap();
    assert_ne!(a, b);
    assert!(state.is_tile_request_pending(&wt(0, 0, 1)));
    assert!(!state.is_tile_request_pending(&wt(9, 9, 1)));
    assert!(state.finish_tile_request(999).is_none());
}

#[test]
fn request_layers_compared_by_value() {
    let request = request_for(wt(0, 0, 0));
    assert!(request.has_layer(&"water".to_string()));
    assert!(request.has_layer(&"boundary".to_string()));
    assert!(!request.has_layer(&"roads".to_string()));
}

#[test]
fn cache_put_is_monotonic() {
    let mut cache = TileCache::new();
    let coords = wt(4, 2, 5);
    assert!(cache.put(coords, TileState::Fetched { raw: vec![1, 2, 3] }));
    // A second fetch result for the same coordinate never regresses the
    // stored state.
    assert!(!cache.put(coords, TileState::Fetched { raw: vec![9] }));
    assert!(!cache.put(coords, TileState::Unavailable));
    // A later stage's result advances it.
    assert!(cache.put(coords, TileState::Parsed { available: vec![], missing: vec![] }));
    assert!(cache.put(coords, TileState::Tessellated { layers: vec![] }));
    assert!(!cache.put(coords, TileState::Fetched { raw: vec![] }));
    match cache.get(&coords) {
        Some(TileState::Tessellated { layers }) => assert!(layers.is_empty()),
        _ => panic!("expected the tessellated state to be stored"),
    }
    assert!(cache.get(&wt(0, 0, 0)).is_none());
}

#[test]
fn cache_retains_only_tiles_in_view() {
    let mut cache = TileCache::new();
    cache.put(wt(0, 0, 2), TileState::Unavailable);
    cache.put(wt(1, 1, 2), TileState::Unavailable);
    cache.put(wt(3, 3, 2), TileState::Unavailable);
    let region = ViewRegion::new(wt(0, 0, 2), wt(1, 1, 2), 0, ZoomLevel::new(2));
    cache.retain_in_view(&region);
    assert!(cache.get(&wt(0, 0, 2)).is_some());
    assert!(cache.get(&wt(1, 1, 2)).is_some());
    assert!(cache.get(&wt(3, 3, 2)).is_none());
}

#[test]
fn cache_appends_tessellated_layers() {
    let mut cache = TileCache::new();
    let coords = wt(2, 2, 2);
    cache.put_tessellated_layer(LayerTessellateMessage::UnavailableLayer {
        coords,
        layer_name: "water".to_string(),
    });
    cache.put_tessellated_layer(LayerTessellateMessage::UnavailableLayer {
        coords,
        layer_name: "boundary".to_string(),
    });
    match cache.get(&coords) {
        Some(TileState::Tessellated { layers }) => {
            assert_eq!(layers.len(), 2);
            assert_eq!(layers[0].layer_name(), "water");
            assert_eq!(layers[1].layer_name(), "boundary");
        }
        _ => panic!("expected a tessellated entry"),
    }
}

#[test]
fn bus_receive_drains_only_selected_tags() {
    let mut bus = ApcBus::new();
    bus.send(TessellateMessage::Tile(TileTessellateMessage { request_id: 1, coords: wt(0, 0, 0) }));
    bus.send(TessellateMessage::Layer(LayerTessellateMessage::UnavailableLayer {
        coords: wt(0, 0, 0),
        layer_name: "water".to_string(),
    }));
    bus.send(TessellateMessage::Tile(TileTessellateMessage { request_id: 2, coords: wt(1, 0, 0) }));
    let layer_only = TagFilter {
        tile_tessellated: false,
        layer_unavailable: true,
        layer_tessellated: true,
    };
    let drained = bus.receive(&layer_only);
    assert_eq!(drained.len(), 1);
    assert!(matches!(drained[0], TessellateMessage::Layer(_)));
    // The unselected messages stay queued, in arrival order.
    let rest = bus.receive(&TagFilter::all());
    assert_eq!(rest.len(), 2);
    match (&rest[0], &rest[1]) {
        (TessellateMessage::Tile(a), TessellateMessage::Tile(b)) => {
            assert_eq!(a.request_id, 1);
            assert_eq!(b.request_id, 2);
        }
        _ => panic!("expected the two tile messages to remain"),
    }
    assert!(bus.receive(&TagFilter::all()).is_empty());
}

#[test]
fn populate_world_moves_layers_into_cache() {
    let mut bus = ApcBus::new();
    let mut cache = TileCache::new();
    bus.send(TessellateMessage::Layer(LayerTessellateMessage::UnavailableLayer {
        coords: wt(5, 5, 5),
        layer_name: "water".to_string(),
    }));
    bus.send(TessellateMessage::Tile(TileTessellateMessage { request_id: 8, coords: wt(5, 5, 5) }));
    PopulateWorldSystem::new().run(&mut bus, &mut cache);
    assert!(cache.get(&wt(5, 5, 5)).is_some());
    // The tile-level message is left for another consumer.
    let rest = bus.receive(&TagFilter::all());
    assert_eq!(rest.len(), 1);
    assert!(matches!(rest[0], TessellateMessage::Tile(_)));
}

#[test]
fn cooperative_scheduler_runs_work_in_order() {
    let mut method = CooperativeScheduleMethod::new();
    assert!(method.schedule(WorkUnit { request_id: 1, request: request_for(wt(0, 0, 1)) }).is_ok());
    assert!(method.schedule(WorkUnit { request_id: 2, request: request_for(wt(1, 0, 1)) }).is_ok());
    let first = method.take_next().unwrap();
    assert_eq!(first.request_id, 1);
    let second = method.take_next().unwrap();
    assert_eq!(second.request_id, 2);
    assert!(method.take_next().is_none());

    let scheduler = Scheduler::new(CooperativeScheduleMethod::new());
    assert_eq!(scheduler.schedule_method().queue.len(), 0);
}

#[test]
fn source_url_substitutes_coordinates() {
    let url = SourceUrl::new("https://tiles.test/{x}/{y}/{z}.bin".to_string());
    assert_eq!(url.format(wt(17421, 11360, 15)), "https://tiles.test/17421/11360/15.bin");
    assert_eq!(url.format(wt(-3, 0, 2)), "https://tiles.test/-3/0/2.bin");
    // Placeholders may repeat and unknown braces pass through unchanged.
    let url = SourceUrl::new("{z}/{z}/{q}{x}".to_string());
    assert_eq!(url.format(wt(7, 8, 9)), "9/9/{q}7");
    let source = Source::new(
        "test_source".to_string(),
        TileAddressingScheme::XYZ,
        SourceUrl::new("{x}-{y}-{z}".to_string()),
    );
    assert_eq!(source.url.format(wt(1, 2, 3)), "1-2-3");
}

#[test]
fn fetch_result_carries_coordinates() {
    let hit = TileFetchResult::Tile { coords: wt(1, 1, 1), data: vec![1, 2] };
    let miss = TileFetchResult::Unavailable { coords: wt(2, 2, 2) };
    assert_eq!(hit.get_coords(), wt(1, 1, 1));
    assert_eq!(miss.get_coords(), wt(2, 2, 2));
}

#[test]
fn munich_block_is_requested_once_each() {
    let mut state = TileRequestState::new();
    fetch_munich_tiles(&mut state);
    assert!(state.is_tile_request_pending(&wt(17421, 11360, 15)));
    assert!(state.is_tile_request_pending(&wt(17425, 11364, 15)));
    assert_eq!(state.pending_requests.len(), 25);
    // A second pass adds nothing: every coordinate is already in flight.
    fetch_munich_tiles(&mut state);
    assert_eq!(state.pending_requests.len(), 25);
}

#[test]
fn glyph_range_hashing_is_stable() {
    let a = hash_glyphrange(&(0u16..256u16));
    let b = hash_glyphrange(&(0u16..256u16));
    let c = hash_glyphrange(&(256u16..512u16));
    assert_eq!(a, b);
    assert_ne!(a, c);
    assert_eq!(a, hash_u16s(&[0, 256]));
    // The empty run hashes to the FNV-1a offset basis.
    assert_eq!(hash_u16s(&[]), 0xcbf2_9ce4_8422_2325);
}

#[test]
fn geometry_index_point_queries() {
    let layer = Layer {
        name: "water".to_string(),
        extent: 4096,
        features: vec![
            Feature {
                geom_type: GeometryType::Polygon,
                geometry: vec![
                    TilePoint { x: 0, y: 0 },
                    TilePoint { x: 10, y: 0 },
                    TilePoint { x: 10, y: 10 },
                ],
                properties: vec![],
            },
            Feature {
                geom_type: GeometryType::Point,
                geometry: vec![TilePoint { x: 5, y: 5 }],
                properties: vec![],
            },
            Feature { geom_type: GeometryType::Point, geometry: vec![], properties: vec![] },
        ],
    };
    let indexed = index_layer_features(&layer);
    assert_eq!(indexed.len(), 3);
    assert_eq!(
        indexed[0],
        IndexedFeature { feature_id: 0, min_x: 0, min_y: 0, max_x: 10, max_y: 10 }
    );
    assert_eq!(
        indexed[1],
        IndexedFeature { feature_id: 1, min_x: 5, min_y: 5, max_x: 5, max_y: 5 }
    );
    // The empty feature's box contains no point.
    assert!(!indexed[2].contains(0, 0));

    let mut index = GeometryIndex::new();
    index.insert(wt(1, 1, 1), indexed);
    // Both the polygon's box and the point feature cover (5, 5).
    assert_eq!(index.query_point(&wt(1, 1, 1), 5, 5), vec![0, 1]);
    assert_eq!(index.query_point(&wt(1, 1, 1), 2, 9), vec![0]);
    assert_eq!(index.query_point(&wt(1, 1, 1), 11, 11), Vec::<u32>::new());
    // A tile that was never indexed yields no hits.
    assert_eq!(index.query_point(&wt(2, 2, 2), 5, 5), Vec::<u32>::new());
    // Re-inserting replaces the indexed footprints.
    index.insert(wt(1, 1, 1), vec![]);
    assert_eq!(index.query_point(&wt(1, 1, 1), 5, 5), Vec::<u32>::new());
}

#[test]
fn geometry_index_query_spans_tiles() {
    let mut index = GeometryIndex::new();
    // A feature of the left tile spills one extent to the right: its box
    // reaches into the neighboring tile's space.
    index.insert(
        wt(1, 1, 3),
        vec![IndexedFeature { feature_id: 0, min_x: 4000, min_y: 0, max_x: 4200, max_y: 100 }],
    );
    index.insert(
        wt(2, 1, 3),
        vec![IndexedFeature { feature_id: 0, min_x: 0, min_y: 0, max_x: 50, max_y: 100 }],
    );
    // A tile of another zoom level never answers.
    index.insert(
        wt(2, 1, 4),
        vec![IndexedFeature { feature_id: 7, min_x: 0, min_y: 0, max_x: 4096, max_y: 4096 }],
    );
    // The point (30, 40) of tile (2,1,3) lies at (4126, 40) of tile (1,1,3):
    // both tiles' features contain it.
    let hits = index.query(&wt(2, 1, 3), 30, 40);
    assert_eq!(hits, vec![(wt(1, 1, 3), 0), (wt(2, 1, 3), 0)]);
    // A point past the spilled geometry hits only the anchor tile.
    let hits = index.query(&wt(2, 1, 3), 10, 200);
    assert_eq!(hits, Vec::<(WorldTileCoords, u32)>::new());
    let hits = index.query(&wt(2, 1, 3), 120, 40);
    assert_eq!(hits, Vec::<(WorldTileCoords, u32)>::new());
}

#[test]
fn retain_keeps_exactly_what_the_policy_accepts() {
    let mut cache = TileCache::new();
    for x in 0..6 {
        cache.put(wt(x, 0, 3), TileState::Fetched { raw: vec![x as u8] });
    }
    cache.retain(|c: &WorldTileCoords, _s: &TileState| c.x % 2 == 0);
    for x in 0..6 {
        assert_eq!(cache.get(&wt(x, 0, 3)).is_some(), x % 2 == 0);
    }
}
