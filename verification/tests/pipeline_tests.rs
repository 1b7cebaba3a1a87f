use maplibre::coords::{WorldTileCoords, ZoomLevel};
use maplibre::layer::{Feature, GeometryType, Layer, TilePoint};
use maplibre::parse::parse_tile;
use maplibre::pipeline::{ParseTile, PipelineContext, PipelineProcessor, TessellateLayer};
use maplibre::request::{LayerTessellateMessage, TileRequest, TileRequestID};
use maplibre::tessellate::{tessellate_features, IndexBuffer};

struct SimpleFeature<'a> {
    geom_type: u8,
    points: Vec<(i32, i32)>,
    props: Vec<(&'a str, &'a str)>,
}

fn push_u16(out: &mut Vec<u8>, v: u16) {
    out.push((v & 0xFF) as u8);
    out.push((v >> 8) as u8);
}

fn push_u32(out: &mut Vec<u8>, v: u32) {
    for shift in [0, 8, 16, 24] {
        out.push(((v >> shift) & 0xFF) as u8);
    }
}

fn push_i32(out: &mut Vec<u8>, v: i32) {
    push_u32(out, v as u32);
}

fn container(layers: &[(&str, u32, Vec<SimpleFeature>)]) -> Vec<u8> {
    let mut out = Vec::new();
    push_u16(&mut out, layers.len() as u16);
    for (name, extent, features) in layers {
        push_u16(&mut out, name.len() as u16);
        out.extend_from_slice(name.as_bytes());
        push_u32(&mut out, *extent);
        push_u16(&mut out, features.len() as u16);
        for f in features {
            out.push(f.geom_type);
            push_u16(&mut out, f.points.len() as u16);
            for (x, y) in &f.points {
                push_i32(&mut out, *x);
                push_i32(&mut out, *y);
            }
            push_u16(&mut out, f.props.len() as u16);
            for (k, v) in &f.props {
                push_u16(&mut out, k.len() as u16);
                out.extend_from_slice(k.as_bytes());
                push_u16(&mut out, v.len() as u16);
                out.extend_from_slice(v.as_bytes());
            }
        }
    }
    out
}

fn water_only_container() -> Vec<u8> {
    container(&[(
        "water",
        4096,
        vec![SimpleFeature {
            geom_type: 3,
            points: vec![(0, 0), (10, 0), (10, 10), (0, 10)],
            props: vec![("kind", "lake")],
        }],
    )])
}

#[derive(Default)]
struct CollectingProcessor {
    unavailable: Vec<(WorldTileCoords, String)>,
    tessellated: Vec<WorldTileCoords>,
    finished: Vec<(TileRequestID, WorldTileCoords)>,
}

impl PipelineProcessor for CollectingProcessor {
    fn layer_unavailable(&mut self, coords: WorldTileCoords, layer_name: &String) {
        self.unavailable.push((coords, layer_name.clone()));
    }

    fn layer_tessellated(&mut self, message: &LayerTessellateMessage) {
        self.tessellated.push(message.get_coords());
    }

    fn tile_finished(&mut self, request_id: TileRequestID, coords: WorldTileCoords) {
        self.finished.push((request_id, coords));
    }
}

fn munich_coords() -> WorldTileCoords {
    WorldTileCoords { x: 17421, y: 11360, z: ZoomLevel::new(15) }
}

fn request(layers: &[&str]) -> TileRequest {
    TileRequest::new(munich_coords(), layers.iter().map(|s| s.to_string()).collect())
}

#[test]
fn parse_keeps_layers_and_order() {
    let data = container(&[
        ("water", 4096, vec![]),
        ("roads", 4096, vec![]),
        ("boundary", 4096, vec![]),
    ]);
    let layers = parse_tile(&data).unwrap();
    assert_eq!(layers.len(), 3);
    assert_eq!(layers[0].name, "water");
    assert_eq!(layers[1].name, "roads");
    assert_eq!(layers[2].name, "boundary");
    assert_eq!(layers[0].extent, 4096);
}

#[test]
fn parse_decodes_geometry_and_properties() {
    let data = water_only_container();
    let layers = parse_tile(&data).unwrap();
    assert_eq!(layers.len(), 1);
    let layer = &layers[0];
    assert_eq!(layer.features.len(), 1);
    let feature = &layer.features[0];
    assert_eq!(feature.geom_type, GeometryType::Polygon);
    assert_eq!(
        feature.geometry,
        vec![
            TilePoint { x: 0, y: 0 },
            TilePoint { x: 10, y: 0 },
            TilePoint { x: 10, y: 10 },
            TilePoint { x: 0, y: 10 },
        ]
    );
    assert_eq!(feature.properties, vec![("kind".to_string(), "lake".to_string())]);
}

#[test]
fn parse_decodes_negative_coordinates() {
    let data = container(&[(
        "edge",
        4096,
        vec![SimpleFeature { geom_type: 2, points: vec![(-64, -1), (4160, 2)], props: vec![] }],
    )]);
    let layers = parse_tile(&data).unwrap();
    assert_eq!(layers[0].features[0].geometry[0], TilePoint { x: -64, y: -1 });
    assert_eq!(layers[0].features[0].geometry[1], TilePoint { x: 4160, y: 2 });
}

#[test]
fn parse_rejects_malformed_containers() {
    // Truncated header.
    assert!(parse_tile(&vec![1]).is_none());
    // Truncated mid-layer.
    let mut data = water_only_container();
    data.truncate(data.len() - 3);
    assert!(parse_tile(&data).is_none());
    // Trailing garbage.
    let mut data = water_only_container();
    data.push(0);
    assert!(parse_tile(&data).is_none());
    // Unknown geometry type.
    let bad = container(&[(
        "water",
        4096,
        vec![SimpleFeature { geom_type: 9, points: vec![], props: vec![] }],
    )]);
    assert!(parse_tile(&bad).is_none());
    // Non-ASCII layer name byte.
    let mut data = water_only_container();
    data[4] = 0xC3;
    assert!(parse_tile(&data).is_none());
}

#[test]
fn missing_layer_never_fails_the_tile() {
    // The source holds only "water"; the request also wants "boundary".
    let data = water_only_container();
    let mut context = PipelineContext::new(CollectingProcessor::default());
    let parsed = ParseTile::default().process((request(&["boundary", "water"]), 7, data), &mut context);
    assert_eq!(parsed.layers.len(), 1);
    assert_eq!(parsed.layers[0].name, "water");
    assert_eq!(parsed.missing, vec!["boundary".to_string()]);

    let messages = TessellateLayer::default().process(parsed, &mut context);
    assert_eq!(messages.len(), 2);
    match &messages[0] {
        LayerTessellateMessage::TessellatedLayer { coords, layer_data, feature_indices, .. } => {
            assert_eq!(*coords, munich_coords());
            assert_eq!(layer_data.name, "water");
            // A four-point polygon fans into two triangles.
            assert_eq!(feature_indices, &vec![6]);
        }
        other => panic!("expected a tessellated layer, got {:?}", other.layer_name()),
    }
    match &messages[1] {
        LayerTessellateMessage::UnavailableLayer { coords, layer_name } => {
            assert_eq!(*coords, munich_coords());
            assert_eq!(layer_name, "boundary");
        }
        _ => panic!("expected an unavailable layer"),
    }
    assert_eq!(context.processor.unavailable.len(), 1);
    assert_eq!(context.processor.unavailable[0].1, "boundary");
    assert_eq!(context.processor.tessellated.len(), 1);
    assert_eq!(context.processor.finished, vec![(7, munich_coords())]);
}

#[test]
fn malformed_container_yields_all_layers_unavailable() {
    let mut context = PipelineContext::new(CollectingProcessor::default());
    let parsed = ParseTile::default().process(
        (request(&["boundary", "water"]), 1, vec![0xFF]),
        &mut context,
    );
    assert_eq!(parsed.layers.len(), 0);
    assert_eq!(parsed.missing, vec!["boundary".to_string(), "water".to_string()]);
    assert_eq!(context.processor.unavailable.len(), 2);
}

fn run_pipeline(data: Vec<u8>) -> Vec<LayerTessellateMessage> {
    let mut context = PipelineContext::new(CollectingProcessor::default());
    let parsed = ParseTile::default().process((request(&["water", "boundary"]), 1, data), &mut context);
    TessellateLayer::default().process(parsed, &mut context)
}

#[test]
fn pipeline_reruns_are_byte_identical() {
    let first = run_pipeline(water_only_container());
    let second = run_pipeline(water_only_container());
    assert_eq!(first.len(), second.len());
    for (a, b) in first.iter().zip(second.iter()) {
        match (a, b) {
            (
                LayerTessellateMessage::TessellatedLayer {
                    buffer: b1,
                    feature_indices: f1,
                    ..
                },
                LayerTessellateMessage::TessellatedLayer {
                    buffer: b2,
                    feature_indices: f2,
                    ..
                },
            ) => {
                assert_eq!(b1.vertices, b2.vertices);
                assert_eq!(f1, f2);
                match (&b1.indices, &b2.indices) {
                    (IndexBuffer::Narrow(i1), IndexBuffer::Narrow(i2)) => assert_eq!(i1, i2),
                    (IndexBuffer::Wide(i1), IndexBuffer::Wide(i2)) => assert_eq!(i1, i2),
                    _ => panic!("index widths differ between runs"),
                }
            }
            (
                LayerTessellateMessage::UnavailableLayer { layer_name: n1, .. },
                LayerTessellateMessage::UnavailableLayer { layer_name: n2, .. },
            ) => assert_eq!(n1, n2),
            _ => panic!("message kinds differ between runs"),
        }
    }
}

#[test]
fn tessellation_shapes() {
    let polygon = Feature {
        geom_type: GeometryType::Polygon,
        geometry: vec![
            TilePoint { x: 0, y: 0 },
            TilePoint { x: 4, y: 0 },
            TilePoint { x: 4, y: 4 },
            TilePoint { x: 0, y: 4 },
        ],
        properties: vec![],
    };
    let line = Feature {
        geom_type: GeometryType::LineString,
        geometry: vec![TilePoint { x: 0, y: 0 }, TilePoint { x: 1, y: 1 }, TilePoint { x: 2, y: 0 }],
        properties: vec![],
    };
    let (buffer, counts) = tessellate_features(&vec![polygon, line]).unwrap();
    assert_eq!(buffer.vertices.len(), 7);
    // Fan triangulation of the quad, then the two line segments.
    match &buffer.indices {
        IndexBuffer::Narrow(idx) => {
            assert_eq!(idx, &vec![0, 1, 2, 0, 2, 3, 4, 5, 5, 6]);
        }
        IndexBuffer::Wide(_) => panic!("seven vertices fit narrow indices"),
    }
    assert_eq!(counts, vec![6, 4]);
    assert_eq!(buffer.vertices[0].prim_id, 0);
    assert_eq!(buffer.vertices[4].prim_id, 1);
    assert_eq!(buffer.vertices[4].x, 0);
}

#[test]
fn degenerate_geometry_tessellates_to_empty() {
    let short_line = Feature {
        geom_type: GeometryType::LineString,
        geometry: vec![TilePoint { x: 3, y: 3 }],
        properties: vec![],
    };
    let thin_polygon = Feature {
        geom_type: GeometryType::Polygon,
        geometry: vec![TilePoint { x: 0, y: 0 }, TilePoint { x: 1, y: 1 }],
        properties: vec![],
    };
    let (buffer, counts) = tessellate_features(&vec![short_line, thin_polygon]).unwrap();
    assert_eq!(buffer.vertices.len(), 3);
    match &buffer.indices {
        IndexBuffer::Narrow(idx) => assert_eq!(idx.len(), 0),
        IndexBuffer::Wide(_) => panic!("three vertices fit narrow indices"),
    }
    assert_eq!(counts, vec![0, 0]);
}

#[test]
fn point_features_index_each_point() {
    let points = Feature {
        geom_type: GeometryType::Point,
        geometry: vec![TilePoint { x: 1, y: 2 }, TilePoint { x: 3, y: 4 }],
        properties: vec![],
    };
    let (buffer, counts) = tessellate_features(&vec![points]).unwrap();
    assert_eq!(buffer.vertices.len(), 2);
    match &buffer.indices {
        IndexBuffer::Narrow(idx) => assert_eq!(idx, &vec![0, 1]),
        IndexBuffer::Wide(_) => panic!("two vertices fit narrow indices"),
    }
    assert_eq!(counts, vec![2]);
}

#[test]
fn layer_message_accessors() {
    let message = LayerTessellateMessage::UnavailableLayer {
        coords: munich_coords(),
        layer_name: "water".to_string(),
    };
    assert_eq!(message.get_coords(), munich_coords());
    assert_eq!(message.layer_name(), "water");
    let layer = Layer { name: "roads".to_string(), extent: 4096, features: vec![] };
    let (buffer, feature_indices) = tessellate_features(&layer.features).unwrap();
    let message = LayerTessellateMessage::TessellatedLayer {
        coords: munich_coords(),
        buffer,
        feature_indices,
        layer_data: layer,
    };
    assert_eq!(message.layer_name(), "roads");
}
