//! The processing stages that turn fetched bytes into renderable geometry:
//! parse, then tessellate. Each stage transforms one representation into the
//! next on a shared context whose pluggable processor receives auxiliary
//! per-layer results, decoupling stage side effects from the caller.
//!
//! A missing or malformed layer yields a layer-level unavailability, never a
//! tile-level failure; a malformed container yields unavailability for every
//! requested layer.

use vstd::prelude::*;
use crate::coords::WorldTileCoords;
use crate::layer::Layer;
use crate::parse::{layer_model, layers_model, parse_tile, spec_parse_tile, LayerModel};
use crate::request::{LayerTessellateMessage, TileRequest, TileRequestID};
use crate::tessellate::{
    spec_layer_indices, spec_layer_vertices, tessellatable, tessellate_features,
    OverAlignedVertexBuffer,
};

verus! {

/// The sink a pipeline stage hands auxiliary results to. Implementations
/// decide who consumes them: a message bus, a collector, a renderer.
pub trait PipelineProcessor {
    /// A requested layer turned out missing or malformed.
    fn layer_unavailable(&mut self, coords: WorldTileCoords, layer_name: &String);

    /// A requested layer was tessellated.
    fn layer_tessellated(&mut self, message: &LayerTessellateMessage);

    /// Every stage of one request has completed.
    fn tile_finished(&mut self, request_id: TileRequestID, coords: WorldTileCoords);
}

/// The shared context a pipeline run threads through its stages.
pub struct PipelineContext<P: PipelineProcessor> {
    pub processor: P,
}

impl<P: PipelineProcessor> PipelineContext<P> {
    pub fn new(processor: P) -> (r: PipelineContext<P>)
        ensures
            r.processor == processor,
    {
        PipelineContext { processor }
    }
}

/// Whether some layer of `models` is named `name`.
pub open spec fn spec_has_layer_named(models: Seq<LayerModel>, name: Seq<char>) -> bool {
    exists|i: int| 0 <= i < models.len() && (#[trigger] models[i]).name == name
}

/// The layers of `models`, in stored order, whose name is one of `names`.
pub open spec fn spec_wanted_layers(models: Seq<LayerModel>, names: Seq<Seq<char>>) -> Seq<
    LayerModel,
>
    decreases models.len(),
{
    if models.len() == 0 {
        Seq::empty()
    } else if names.contains(models[0].name) {
        seq![models[0]] + spec_wanted_layers(models.drop_first(), names)
    } else {
        spec_wanted_layers(models.drop_first(), names)
    }
}

/// The requested `names`, in request order, that name no layer of `models`.
pub open spec fn spec_missing_names(models: Seq<LayerModel>, names: Seq<Seq<char>>) -> Seq<
    Seq<char>,
>
    decreases names.len(),
{
    if names.len() == 0 {
        Seq::empty()
    } else if spec_has_layer_named(models, names[0]) {
        spec_missing_names(models, names.drop_first())
    } else {
        seq![names[0]] + spec_missing_names(models, names.drop_first())
    }
}

/// Output of the parse stage: the decoded layers the request asked for, and
/// the requested layer names the tile could not provide.
#[derive(Debug)]
pub struct ParsedTile {
    pub request: TileRequest,
    pub request_id: TileRequestID,
    pub layers: Vec<Layer>,
    pub missing: Vec<String>,
}

/// The names of `missing`, as character sequences.
pub open spec fn missing_names_model(missing: Seq<String>) -> Seq<Seq<char>> {
    missing.map_values(|s: String| s@)
}

/// The parse stage: decodes a tile's binary container into its named
/// layers, filtered to the requested layer set.
pub struct ParseTile;

impl Default for ParseTile {
    fn default() -> (r: Self)
        ensures
            r == ParseTile,
    {
        ParseTile
    }
}

/// Whether some layer of `layers` is named `name`.
fn has_layer_named(layers: &Vec<Layer>, name: &String) -> (r: bool)
    ensures
        r == spec_has_layer_named(layers_model(layers@), name@),
{
    let mut i: usize = 0;
    while i < layers.len()
        invariant
            i <= layers@.len(),
            forall|j: int| 0 <= j < i ==> (#[trigger] layers_model(layers@)[j]).name != name@,
        decreases layers@.len() - i,
    {
        if layers[i].name == *name {
            proof {
                assert(layers_model(layers@)[i as int].name == name@);
            }
            return true;
        }
        i = i + 1;
    }
    false
}

impl ParseTile {
    /// Decodes the container and keeps the requested layers, reporting each
    /// requested layer the tile cannot provide to the processor. A
    /// malformed container makes every requested layer unavailable; it
    /// never fails the run.
    pub fn process<P: PipelineProcessor>(
        &self,
        input: (TileRequest, TileRequestID, Vec<u8>),
        context: &mut PipelineContext<P>,
    ) -> (r: ParsedTile)
        ensures
            r.request == input.0,
            r.request_id == input.1,
            spec_parse_tile(input.2@) matches Some(models) ==> {
                &&& layers_model(r.layers@) == spec_wanted_layers(models, input.0.layer_names())
                &&& missing_names_model(r.missing@) == spec_missing_names(
                    models,
                    input.0.layer_names(),
                )
            },
            spec_parse_tile(input.2@) is None ==> {
                &&& r.layers@.len() == 0
                &&& missing_names_model(r.missing@) == input.0.layer_names()
            },
    {
        let (request, request_id, data) = input;
        let coords = request.coords;
        let parsed: Option<Vec<Layer>> = parse_tile(&data);
        let mut layers: Vec<Layer> = Vec::new();
        let mut missing: Vec<String> = Vec::new();
        match parsed {
            Some(all_layers) => {
                let ghost models = layers_model(all_layers@);
                proof {
                    assert(models.skip(0) =~= models);
                    assert(layers_model(layers@) =~= Seq::<LayerModel>::empty());
                    assert(layers_model(layers@) + spec_wanted_layers(
                        models,
                        request.layer_names(),
                    ) =~= spec_wanted_layers(models, request.layer_names()));
                }
                let mut i: usize = 0;
                while i < all_layers.len()
                    invariant
                        i <= all_layers@.len(),
                        models == layers_model(all_layers@),
                        spec_wanted_layers(models, request.layer_names()) == layers_model(
                            layers@,
                        ) + spec_wanted_layers(
                            models.skip(i as int),
                            request.layer_names(),
                        ),
                    decreases all_layers@.len() - i,
                {
                    let ghost rest = models.skip(i as int);
                    let wanted = request.has_layer(&all_layers[i].name);
                    proof {
                        assert(rest[0] == models[i as int]);
                        assert(models[i as int].name == all_layers@[i as int].name@);
                        assert(rest.drop_first() =~= models.skip(i as int + 1));
                    }
                    if wanted {
                        let ghost lm = models[i as int];
                        let l = clone_layer(&all_layers, i);
                        proof {
                            assert(layer_model(l) == lm);
                            let m = |ll: Layer| layer_model(ll);
                            assert(layers@.push(l).map_values(m) =~= layers@.map_values(m).push(
                                lm,
                            ));
                            assert(spec_wanted_layers(rest, request.layer_names()) == seq![lm]
                                + spec_wanted_layers(
                                models.skip(i as int + 1),
                                request.layer_names(),
                            ));
                            assert(layers@.map_values(m) + (seq![lm] + spec_wanted_layers(
                                models.skip(i as int + 1),
                                request.layer_names(),
                            )) =~= layers@.map_values(m).push(lm) + spec_wanted_layers(
                                models.skip(i as int + 1),
                                request.layer_names(),
                            ));
                        }
                        layers.push(l);
                    } else {
                        proof {
                            assert(spec_wanted_layers(rest, request.layer_names())
                                == spec_wanted_layers(
                                models.skip(i as int + 1),
                                request.layer_names(),
                            ));
                        }
                    }
                    i = i + 1;
                }
                proof {
                    assert(models.skip(models.len() as int) =~= Seq::<LayerModel>::empty());
                    assert(layers_model(layers@) + Seq::<LayerModel>::empty() =~= layers_model(
                        layers@,
                    ));
                }
                proof {
                    assert(request.layer_names().skip(0) =~= request.layer_names());
                    assert(missing_names_model(missing@) =~= Seq::<Seq<char>>::empty());
                    assert(missing_names_model(missing@) + spec_missing_names(
                        models,
                        request.layer_names(),
                    ) =~= spec_missing_names(models, request.layer_names()));
                }
                let mut j: usize = 0;
                while j < request.layers.len()
                    invariant
                        j <= request.layers@.len(),
                        models == layers_model(all_layers@),
                        spec_missing_names(models, request.layer_names()) == missing_names_model(
                            missing@,
                        ) + spec_missing_names(
                            models,
                            request.layer_names().skip(j as int),
                        ),
                    decreases request.layers@.len() - j,
                {
                    let ghost names_rest = request.layer_names().skip(j as int);
                    let present = has_layer_named(&all_layers, &request.layers[j]);
                    proof {
                        assert(names_rest[0] == request.layer_names()[j as int]);
                        assert(request.layer_names()[j as int] == request.layers@[j as int]@);
                        assert(names_rest.drop_first() =~= request.layer_names().skip(
                            j as int + 1,
                        ));
                    }
                    if !present {
                        let ghost nm = request.layer_names()[j as int];
                        let name = clone_string(&request.layers, j);
                        context.processor.layer_unavailable(coords, &name);
                        proof {
                            let m = |s: String| s@;
                            assert(missing@.push(name).map_values(m) =~= missing@.map_values(
                                m,
                            ).push(nm));
                            assert(spec_missing_names(models, names_rest) == seq![nm]
                                + spec_missing_names(
                                models,
                                request.layer_names().skip(j as int + 1),
                            ));
                            assert(missing@.map_values(m) + (seq![nm] + spec_missing_names(
                                models,
                                request.layer_names().skip(j as int + 1),
                            )) =~= missing@.map_values(m).push(nm) + spec_missing_names(
                                models,
                                request.layer_names().skip(j as int + 1),
                            ));
                        }
                        missing.push(name);
                    } else {
                        proof {
                            assert(spec_missing_names(models, names_rest) == spec_missing_names(
                                models,
                                request.layer_names().skip(j as int + 1),
                            ));
                        }
                    }
                    j = j + 1;
                }
                proof {
                    assert(request.layer_names().skip(request.layer_names().len() as int)
                        =~= Seq::<Seq<char>>::empty());
                    assert(spec_missing_names(models, Seq::<Seq<char>>::empty())
                        == Seq::<Seq<char>>::empty());
                    assert(missing_names_model(missing@) + Seq::<Seq<char>>::empty()
                        =~= missing_names_model(missing@));
                }
            },
            None => {
                let mut j: usize = 0;
                while j < request.layers.len()
                    invariant
                        j <= request.layers@.len(),
                        missing@.len() == j,
                        forall|k: int|
                            0 <= k < j ==> missing_names_model(missing@)[k]
                                == request.layer_names()[k],
                    decreases request.layers@.len() - j,
                {
                    let name = clone_string(&request.layers, j);
                    context.processor.layer_unavailable(coords, &name);
                    missing.push(name);
                    j = j + 1;
                }
                proof {
                    assert(missing_names_model(missing@) =~= request.layer_names());
                }
            },
        }
        ParsedTile { request, request_id, layers, missing }
    }
}

/// Copies the layer at `i`, field by field.
fn clone_layer(layers: &Vec<Layer>, i: usize) -> (r: Layer)
    requires
        i < layers@.len(),
    ensures
        layer_model(r) == layer_model(layers@[i as int]),
        r.name@ == layers@[i as int].name@,
{
    let src = &layers[i];
    let name = clone_string_value(&src.name);
    let extent = src.extent;
    let mut features: Vec<crate::layer::Feature> = Vec::new();
    let mut k: usize = 0;
    while k < src.features.len()
        invariant
            k <= src.features@.len(),
            src == &layers@[i as int],
            features@.map_values(|f: crate::layer::Feature| crate::parse::feature_model(f))
                =~= src.features@.map_values(
                |f: crate::layer::Feature| crate::parse::feature_model(f),
            ).take(k as int),
        decreases src.features@.len() - k,
    {
        let f = &src.features[k];
        let mut geometry: Vec<crate::layer::TilePoint> = Vec::new();
        let mut g: usize = 0;
        while g < f.geometry.len()
            invariant
                g <= f.geometry@.len(),
                f == &src.features@[k as int],
                geometry@ =~= f.geometry@.take(g as int),
            decreases f.geometry@.len() - g,
        {
            geometry.push(f.geometry[g]);
            g = g + 1;
        }
        let mut properties: Vec<(String, String)> = Vec::new();
        let mut q: usize = 0;
        while q < f.properties.len()
            invariant
                q <= f.properties@.len(),
                f == &src.features@[k as int],
                properties@.map_values(|e: (String, String)| (e.0@, e.1@))
                    =~= f.properties@.map_values(|e: (String, String)| (e.0@, e.1@)).take(
                    q as int,
                ),
            decreases f.properties@.len() - q,
        {
            let key = clone_string_value(&f.properties[q].0);
            let value = clone_string_value(&f.properties[q].1);
            proof {
                let m = |e: (String, String)| (e.0@, e.1@);
                assert(properties@.push((key, value)).map_values(m) =~= properties@.map_values(
                    m,
                ).push((f.properties@[q as int].0@, f.properties@[q as int].1@)));
                assert(f.properties@.map_values(m).take(q + 1) =~= f.properties@.map_values(
                    m,
                ).take(q as int).push(m(f.properties@[q as int])));
            }
            properties.push((key, value));
            q = q + 1;
        }
        proof {
            assert(f.geometry@.take(f.geometry@.len() as int) =~= f.geometry@);
            let m = |e: (String, String)| (e.0@, e.1@);
            assert(f.properties@.map_values(m).take(f.properties@.map_values(m).len() as int)
                =~= f.properties@.map_values(m));
        }
        let copied = crate::layer::Feature { geom_type: f.geom_type, geometry, properties };
        proof {
            let fm = |ff: crate::layer::Feature| crate::parse::feature_model(ff);
            assert(crate::parse::feature_model(copied) == crate::parse::feature_model(
                src.features@[k as int],
            ));
            assert(features@.push(copied).map_values(fm) =~= features@.map_values(fm).push(
                fm(src.features@[k as int]),
            ));
            assert(src.features@.map_values(fm).take(k + 1) =~= src.features@.map_values(
                fm,
            ).take(k as int).push(fm(src.features@[k as int])));
        }
        features.push(copied);
        k = k + 1;
    }
    proof {
        let fm = |ff: crate::layer::Feature| crate::parse::feature_model(ff);
        assert(src.features@.map_values(fm).take(src.features@.map_values(fm).len() as int)
            =~= src.features@.map_values(fm));
    }
    Layer { name, extent, features }
}

/// Copies the string at `i`.
fn clone_string(strings: &Vec<String>, i: usize) -> (r: String)
    requires
        i < strings@.len(),
    ensures
        r@ == strings@[i as int]@,
{
    clone_string_value(&strings[i])
}

/// Copies one string.
fn clone_string_value(s: &String) -> (r: String)
    ensures
        r@ == s@,
{
    s.clone()
}


/// What an unavailability message for one layer name must hold.
pub open spec fn spec_unavailable_message(
    m: LayerTessellateMessage,
    coords: WorldTileCoords,
    name: Seq<char>,
) -> bool {
    &&& m matches LayerTessellateMessage::UnavailableLayer { coords: c, layer_name }
    &&& c == coords
    &&& layer_name@ == name
}

/// Whether two tessellated messages carry identical buffers and index-count
/// tables.
pub open spec fn spec_same_buffers(
    m1: LayerTessellateMessage,
    m2: LayerTessellateMessage,
) -> bool {
    &&& m1 matches LayerTessellateMessage::TessellatedLayer {
        buffer: b1,
        feature_indices: c1,
        ..
    }
    &&& m2 matches LayerTessellateMessage::TessellatedLayer {
        buffer: b2,
        feature_indices: c2,
        ..
    }
    &&& b1.vertices@ == b2.vertices@
    &&& b1.indices.index_seq() == b2.indices.index_seq()
    &&& b1.indices.is_narrow() == b2.indices.is_narrow()
    &&& c1@.map_values(|n: u32| n as int) == c2@.map_values(|n: u32| n as int)
}

/// The tessellate stage: converts each parsed layer's vector geometry into
/// a vertex/index buffer pair with a per-feature index-count table.
pub struct TessellateLayer;

impl Default for TessellateLayer {
    fn default() -> (r: Self)
        ensures
            r == TessellateLayer,
    {
        TessellateLayer
    }
}

/// What the tessellate stage must emit for one parsed layer: its buffers
/// when the layer fits the representable bounds, a layer-level
/// unavailability otherwise — never a failure.
pub open spec fn spec_layer_message(
    m: LayerTessellateMessage,
    coords: WorldTileCoords,
    layer: Layer,
) -> bool {
    if tessellatable(layer.features@) {
        &&& m matches LayerTessellateMessage::TessellatedLayer {
            coords: c,
            buffer,
            feature_indices,
            layer_data,
        }
        &&& c == coords
        &&& buffer.vertices@ == spec_layer_vertices(layer.features@)
        &&& buffer.indices.index_seq() == spec_layer_indices(layer.features@)
        &&& (buffer.indices.is_narrow() <==> spec_layer_vertices(layer.features@).len()
            <= u16::MAX)
        &&& feature_indices@.map_values(|n: u32| n as int)
            == crate::tessellate::spec_feature_index_counts(layer.features@)
        &&& layer_model(layer_data) == layer_model(layer)
    } else {
        &&& m matches LayerTessellateMessage::UnavailableLayer { coords: c, layer_name }
        &&& c == coords
        &&& layer_name@ == layer.name@
    }
}

impl TessellateLayer {
    /// Tessellates every parsed layer of the input and reports each result
    /// to the processor; emits one message per parsed layer followed by one
    /// unavailability message per missing layer name. Degenerate or
    /// oversized geometry yields unavailability for that layer alone.
    pub fn process<P: PipelineProcessor>(
        &self,
        input: ParsedTile,
        context: &mut PipelineContext<P>,
    ) -> (r: Vec<LayerTessellateMessage>)
        ensures
            r@.len() == input.layers@.len() + input.missing@.len(),
            forall|i: int|
                0 <= i < input.layers@.len() ==> spec_layer_message(
                    #[trigger] r@[i],
                    input.request.coords,
                    input.layers@[i],
                ),
            forall|j: int|
                0 <= j < input.missing@.len() ==> spec_unavailable_message(
                    #[trigger] r@[input.layers@.len() + j],
                    input.request.coords,
                    input.missing@[j]@,
                ),
    {
        let ParsedTile { request, request_id, layers, missing } = input;
        let coords = request.coords;
        let mut out: Vec<LayerTessellateMessage> = Vec::new();
        let ghost all_layers = layers@;
        let mut layers = layers;
        let ghost mut i: int = 0;
        while layers.len() > 0
            invariant
                0 <= i <= all_layers.len(),
                layers@ == all_layers.skip(i),
                out@.len() == i,
                forall|k: int|
                    0 <= k < i ==> spec_layer_message(#[trigger] out@[k], coords, all_layers[k]),
            decreases layers@.len(),
        {
            let l = layers.remove(0);
            proof {
                assert(all_layers.skip(i)[0] == all_layers[i]);
                assert(l == all_layers[i]);
                assert(layers@ =~= all_layers.skip(i + 1));
            }
            match tessellate_features(&l.features) {
                Some((buffer, feature_indices)) => {
                    let message = LayerTessellateMessage::TessellatedLayer {
                        coords,
                        buffer,
                        feature_indices,
                        layer_data: l,
                    };
                    context.processor.layer_tessellated(&message);
                    out.push(message);
                },
                None => {
                    let name = clone_string_value(&l.name);
                    context.processor.layer_unavailable(coords, &name);
                    out.push(
                        LayerTessellateMessage::UnavailableLayer { coords, layer_name: name },
                    );
                },
            }
            proof {
                i = i + 1;
            }
        }
        let ghost all_missing = missing@;
        let mut missing = missing;
        let ghost mut j: int = 0;
        while missing.len() > 0
            invariant
                0 <= j <= all_missing.len(),
                missing@ == all_missing.skip(j),
                out@.len() == all_layers.len() + j,
                forall|k: int|
                    0 <= k < all_layers.len() ==> spec_layer_message(
                        #[trigger] out@[k],
                        coords,
                        all_layers[k],
                    ),
                forall|k: int|
                    0 <= k < j ==> spec_unavailable_message(
                        #[trigger] out@[all_layers.len() + k],
                        coords,
                        all_missing[k]@,
                    ),
            decreases missing@.len(),
        {
            let name = missing.remove(0);
            proof {
                assert(all_missing.skip(j)[0] == all_missing[j]);
                assert(name == all_missing[j]);
                assert(missing@ =~= all_missing.skip(j + 1));
            }
            out.push(LayerTessellateMessage::UnavailableLayer { coords, layer_name: name });
            proof {
                j = j + 1;
            }
        }
        context.processor.tile_finished(request_id, coords);
        out
    }
}

/// A missing layer never fails the tile. For one run of the two stages —
/// a parse output over a decodable container, then the tessellate messages
/// over it — the run completes with exactly one message per requested-layer
/// resolution: each layer the source holds gets its own per-layer result
/// (its buffers, or its own unavailability when degenerate), and each
/// requested name the source lacks gets exactly one unavailability naming
/// it. No combination aborts the whole tile.
pub proof fn lemma_missing_layer_never_fails(
    models: Seq<LayerModel>,
    parsed: ParsedTile,
    messages: Seq<LayerTessellateMessage>,
)
    requires
        layers_model(parsed.layers@) == spec_wanted_layers(models, parsed.request.layer_names()),
        missing_names_model(parsed.missing@) == spec_missing_names(
            models,
            parsed.request.layer_names(),
        ),
        messages.len() == parsed.layers@.len() + parsed.missing@.len(),
        forall|i: int|
            0 <= i < parsed.layers@.len() ==> spec_layer_message(
                #[trigger] messages[i],
                parsed.request.coords,
                parsed.layers@[i],
            ),
        forall|j: int|
            0 <= j < parsed.missing@.len() ==> spec_unavailable_message(
                #[trigger] messages[parsed.layers@.len() + j],
                parsed.request.coords,
                parsed.missing@[j]@,
            ),
    ensures
        messages.len() == spec_wanted_layers(models, parsed.request.layer_names()).len()
            + spec_missing_names(models, parsed.request.layer_names()).len(),
        forall|i: int|
            0 <= i < spec_wanted_layers(models, parsed.request.layer_names()).len()
                ==> layer_model((#[trigger] parsed.layers@[i])) == spec_wanted_layers(
                models,
                parsed.request.layer_names(),
            )[i] && spec_layer_message(messages[i], parsed.request.coords, parsed.layers@[i]),
        forall|j: int|
            0 <= j < spec_missing_names(models, parsed.request.layer_names()).len()
                ==> spec_unavailable_message(
                #[trigger] messages[parsed.layers@.len() + j],
                parsed.request.coords,
                spec_missing_names(models, parsed.request.layer_names())[j],
            ),
{
    let wanted = spec_wanted_layers(models, parsed.request.layer_names());
    let missing = spec_missing_names(models, parsed.request.layer_names());
    assert(parsed.layers@.len() == wanted.len()) by {
        assert(layers_model(parsed.layers@).len() == parsed.layers@.len());
    }
    assert(parsed.missing@.len() == missing.len()) by {
        assert(missing_names_model(parsed.missing@).len() == parsed.missing@.len());
    }
    assert forall|i: int| 0 <= i < wanted.len() implies layer_model(
        (#[trigger] parsed.layers@[i]),
    ) == wanted[i] by {
        assert(layers_model(parsed.layers@)[i] == layer_model(parsed.layers@[i]));
    }
    assert forall|j: int| 0 <= j < missing.len() implies spec_unavailable_message(
        #[trigger] messages[parsed.layers@.len() + j],
        parsed.request.coords,
        missing[j],
    ) by {
        assert(missing_names_model(parsed.missing@)[j] == parsed.missing@[j]@);
    }
}

/// One layer's feature run determines the other's tessellation outcome
/// whenever the two layers decode to the same mathematical value.
proof fn lemma_features_model_determines_buffers(
    f1: Seq<crate::layer::Feature>,
    f2: Seq<crate::layer::Feature>,
)
    requires
        f1.map_values(|f: crate::layer::Feature| crate::parse::feature_model(f))
            == f2.map_values(|f: crate::layer::Feature| crate::parse::feature_model(f)),
    ensures
        spec_layer_vertices(f1) == spec_layer_vertices(f2),
        spec_layer_indices(f1) == spec_layer_indices(f2),
        crate::tessellate::spec_feature_index_counts(f1)
            == crate::tessellate::spec_feature_index_counts(f2),
        crate::tessellate::spec_total_points(f1) == crate::tessellate::spec_total_points(f2),
        tessellatable(f1) == tessellatable(f2),
    decreases f1.len(),
{
    let fm = |f: crate::layer::Feature| crate::parse::feature_model(f);
    assert(f1.map_values(fm).len() == f2.map_values(fm).len());
    if f1.len() == 0 {
        assert(crate::tessellate::spec_feature_index_counts(f1)
            =~= crate::tessellate::spec_feature_index_counts(f2));
    } else {
        assert(f1.drop_last().map_values(fm) =~= f2.drop_last().map_values(fm)) by {
            assert forall|k: int| 0 <= k < f1.len() - 1 implies f1.drop_last().map_values(fm)[k]
                == f2.drop_last().map_values(fm)[k] by {
                assert(f1.map_values(fm)[k] == f2.map_values(fm)[k]);
            }
        }
        lemma_features_model_determines_buffers(f1.drop_last(), f2.drop_last());
        let a = f1.last();
        let b = f2.last();
        assert(fm(a) == fm(b)) by {
            assert(f1.map_values(fm)[f1.len() - 1] == f2.map_values(fm)[f2.len() - 1]);
        }
        assert(a.geometry@ == b.geometry@ && a.geom_type == b.geom_type);
        assert(crate::tessellate::spec_feature_vertices(a, (f1.len() - 1) as u32)
            =~= crate::tessellate::spec_feature_vertices(b, (f2.len() - 1) as u32));
        assert(crate::tessellate::spec_feature_indices(
            a,
            spec_layer_vertices(f1.drop_last()).len() as int,
        ) =~= crate::tessellate::spec_feature_indices(
            b,
            spec_layer_vertices(f2.drop_last()).len() as int,
        ));
        assert(spec_layer_vertices(f1) == spec_layer_vertices(f2));
        assert(spec_layer_indices(f1) == spec_layer_indices(f2));
        assert(crate::tessellate::spec_feature_index_counts(f1)
            =~= crate::tessellate::spec_feature_index_counts(f2)) by {
            assert forall|k: int| 0 <= k < f1.len() implies crate::tessellate::spec_feature_indices(
                f1[k],
                0,
            ).len() == crate::tessellate::spec_feature_indices(f2[k], 0).len() by {
                assert(f1.map_values(fm)[k] == f2.map_values(fm)[k]);
                assert(crate::tessellate::spec_feature_indices(f1[k], 0)
                    =~= crate::tessellate::spec_feature_indices(f2[k], 0));
            }
        }
    }
}

/// Re-running the pipeline on the same input bytes is idempotent: the parse
/// stage's output is a function of the bytes and the requested names alone,
/// and the tessellate stage's buffers are a function of the decoded layers
/// alone — so two runs on the same bytes yield identical vertex buffers,
/// index buffers and index-count tables.
pub proof fn lemma_pipeline_idempotent(
    coords: WorldTileCoords,
    layer1: Layer,
    layer2: Layer,
    m1: LayerTessellateMessage,
    m2: LayerTessellateMessage,
)
    requires
        layer_model(layer1) == layer_model(layer2),
        spec_layer_message(m1, coords, layer1),
        spec_layer_message(m2, coords, layer2),
    ensures
        m1 is TessellatedLayer <==> m2 is TessellatedLayer,
        m1 is TessellatedLayer ==> spec_same_buffers(m1, m2),
{
    lemma_features_model_determines_buffers(layer1.features@, layer2.features@);
}

} // verus!
