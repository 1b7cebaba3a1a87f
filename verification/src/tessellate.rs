//! Conversion of a layer's vector geometry into renderable vertex and index
//! buffers, with a per-feature index-count table for later picking and
//! restyling.
//!
//! Tessellation is total and deterministic: degenerate inputs (lines with
//! fewer than two points, polygons with fewer than three) produce empty
//! geometry for that feature rather than failing.

use vstd::prelude::*;
use crate::layer::{Feature, GeometryType, TilePoint};

verus! {

/// Widest index type a buffer may use.
pub type IndexDataType = u32;

/// Ceiling on the number of vertices one layer may tessellate to; keeps
/// every index, every per-feature count and every primitive id representable.
pub const MAX_TESSELLATION_VERTICES: u32 = 0x3FFF_FFFF;

/// A vertex record handed to the renderer: a 2D tile-local position, a
/// normal, and the id of the primitive (feature) it belongs to, used for
/// per-feature styling.
#[derive(Clone, Copy, Debug, PartialEq, Eq, Structural)]
pub struct ShaderVertex {
    pub x: i32,
    pub y: i32,
    pub norm_x: i32,
    pub norm_y: i32,
    pub prim_id: u32,
}

/// An index buffer whose width is chosen to minimize GPU memory subject to
/// the vertex count: 16-bit indices when every vertex is addressable with
/// them, 32-bit indices otherwise.
#[derive(Debug)]
pub enum IndexBuffer {
    Narrow(Vec<u16>),
    Wide(Vec<u32>),
}

impl IndexBuffer {
    /// The indices held, independent of their width.
    pub open spec fn index_seq(&self) -> Seq<int> {
        match self {
            IndexBuffer::Narrow(v) => v@.map_values(|i: u16| i as int),
            IndexBuffer::Wide(v) => v@.map_values(|i: u32| i as int),
        }
    }

    /// Whether the narrow 16-bit width is used.
    pub open spec fn is_narrow(&self) -> bool {
        self matches IndexBuffer::Narrow(_)
    }

    /// The number of indices held.
    pub fn len(&self) -> (r: usize)
        ensures
            r == self.index_seq().len(),
    {
        match self {
            IndexBuffer::Narrow(v) => v.len(),
            IndexBuffer::Wide(v) => v.len(),
        }
    }
}

/// A vertex/index buffer pair ready for upload to the GPU.
#[derive(Debug)]
pub struct OverAlignedVertexBuffer {
    pub vertices: Vec<ShaderVertex>,
    pub indices: IndexBuffer,
}

/// The vertex a tile-local point contributes to primitive `prim`.
pub open spec fn vertex_of(p: TilePoint, prim: u32) -> ShaderVertex {
    ShaderVertex { x: p.x, y: p.y, norm_x: 0, norm_y: 0, prim_id: prim }
}

/// The vertices one feature contributes: one per point, in point order.
pub open spec fn spec_feature_vertices(f: Feature, prim: u32) -> Seq<ShaderVertex> {
    Seq::new(f.geometry@.len(), |i: int| vertex_of(f.geometry@[i], prim))
}

/// The indices one feature contributes, relative to the index `base` of its
/// first vertex: single indices for points, segment pairs for a line run,
/// and a deterministic fan triangulation for a polygon ring. Degenerate
/// geometry contributes nothing.
pub open spec fn spec_feature_indices(f: Feature, base: int) -> Seq<int> {
    let n = f.geometry@.len() as int;
    match f.geom_type {
        GeometryType::Point => Seq::new(n as nat, |i: int| base + i),
        GeometryType::LineString => if n < 2 {
            Seq::empty()
        } else {
            Seq::new((2 * (n - 1)) as nat, |i: int| base + i / 2 + i % 2)
        },
        GeometryType::Polygon => if n < 3 {
            Seq::empty()
        } else {
            Seq::new(
                (3 * (n - 2)) as nat,
                |i: int|
                    if i % 3 == 0 {
                        base
                    } else {
                        base + i / 3 + i % 3
                    },
            )
        },
    }
}

/// Total number of geometry points over a run of features.
pub open spec fn spec_total_points(features: Seq<Feature>) -> int
    decreases features.len(),
{
    if features.len() == 0 {
        0
    } else {
        spec_total_points(features.drop_last()) + features.last().geometry@.len()
    }
}

/// The vertex buffer of a run of features: each feature's vertices in
/// feature order, with the feature's position as its primitive id.
pub open spec fn spec_layer_vertices(features: Seq<Feature>) -> Seq<ShaderVertex>
    decreases features.len(),
{
    if features.len() == 0 {
        Seq::empty()
    } else {
        spec_layer_vertices(features.drop_last()) + spec_feature_vertices(
            features.last(),
            (features.len() - 1) as u32,
        )
    }
}

/// The index buffer of a run of features: each feature's indices in feature
/// order, each based at the position of that feature's first vertex.
pub open spec fn spec_layer_indices(features: Seq<Feature>) -> Seq<int>
    decreases features.len(),
{
    if features.len() == 0 {
        Seq::empty()
    } else {
        spec_layer_indices(features.drop_last()) + spec_feature_indices(
            features.last(),
            spec_layer_vertices(features.drop_last()).len() as int,
        )
    }
}

/// How many indices each feature contributes, in feature order; the count
/// does not depend on where the feature's vertices start.
pub open spec fn spec_feature_index_counts(features: Seq<Feature>) -> Seq<int> {
    Seq::new(features.len(), |i: int| spec_feature_indices(features[i], 0).len() as int)
}

/// Whether a run of features fits the representable tessellation bounds:
/// primitive ids and vertex indices must fit their integer widths.
pub open spec fn tessellatable(features: Seq<Feature>) -> bool {
    features.len() <= u32::MAX && spec_total_points(features) <= MAX_TESSELLATION_VERTICES
}

/// A prefix of a feature run never has more points than the whole run.
proof fn lemma_total_points_monotone(features: Seq<Feature>, i: int)
    requires
        0 <= i <= features.len(),
    ensures
        spec_total_points(features.take(i)) <= spec_total_points(features),
    decreases features.len() - i,
{
    if i < features.len() {
        lemma_total_points_monotone(features, i + 1);
        assert(features.take(i + 1).drop_last() =~= features.take(i));
        assert(spec_total_points(features.take(i)) <= spec_total_points(features.take(i + 1)));
    } else {
        assert(features.take(i) =~= features);
    }
}

/// A feature run's vertex buffer holds exactly one vertex per point.
proof fn lemma_layer_vertices_len(features: Seq<Feature>)
    ensures
        spec_layer_vertices(features).len() == spec_total_points(features),
    decreases features.len(),
{
    if features.len() > 0 {
        lemma_layer_vertices_len(features.drop_last());
    }
}

/// Every index of a feature's contribution addresses one of the feature's
/// own vertices: it lies in `[base, base + points)`.
proof fn lemma_feature_indices_bounded(f: Feature, base: int)
    requires
        f.geometry@.len() > 0,
    ensures
        forall|k: int|
            0 <= k < spec_feature_indices(f, base).len() ==> base <= #[trigger] spec_feature_indices(
                f,
                base,
            )[k] < base + f.geometry@.len(),
{
}

/// Every index of a feature run addresses a vertex of the run.
proof fn lemma_layer_indices_bounded(features: Seq<Feature>)
    ensures
        forall|k: int|
            0 <= k < spec_layer_indices(features).len() ==> 0 <= #[trigger] spec_layer_indices(
                features,
            )[k] < spec_layer_vertices(features).len(),
    decreases features.len(),
{
    if features.len() > 0 {
        let prefix = features.drop_last();
        let f = features.last();
        let base = spec_layer_vertices(prefix).len() as int;
        lemma_layer_indices_bounded(prefix);
        if f.geometry@.len() > 0 {
            lemma_feature_indices_bounded(f, base);
        }
        let whole_idx = spec_layer_indices(features);
        let pre_idx = spec_layer_indices(prefix);
        let fidx = spec_feature_indices(f, base);
        assert forall|k: int|
            0 <= k < whole_idx.len() implies 0 <= #[trigger] whole_idx[k] < spec_layer_vertices(
            features,
        ).len() by {
            if k < pre_idx.len() {
                assert(whole_idx[k] == pre_idx[k]);
            } else {
                assert(whole_idx[k] == fidx[k - pre_idx.len()]);
            }
        }
    }
}

/// Tessellates a run of features into a vertex/index buffer pair and the
/// per-feature index-count table. Returns `None` exactly when the run
/// exceeds the representable bounds; any geometry content, however
/// degenerate, is otherwise converted deterministically.
pub fn tessellate_features(features: &Vec<Feature>) -> (r: Option<
    (OverAlignedVertexBuffer, Vec<u32>),
>)
    ensures
        r is Some <==> tessellatable(features@),
        r matches Some((buffer, counts)) ==> {
            &&& buffer.vertices@ == spec_layer_vertices(features@)
            &&& buffer.indices.index_seq() == spec_layer_indices(features@)
            &&& buffer.indices.is_narrow() <==> spec_layer_vertices(features@).len() <= u16::MAX
            &&& counts@.map_values(|c: u32| c as int) == spec_feature_index_counts(features@)
        },
{
    if features.len() > u32::MAX as usize {
        return None;
    }
    // First pass: establish that the total point count stays representable.
    let mut total: u32 = 0;
    let mut fi: usize = 0;
    while fi < features.len()
        invariant
            fi <= features@.len() <= u32::MAX,
            total == spec_total_points(features@.take(fi as int)),
            total <= MAX_TESSELLATION_VERTICES,
        decreases features@.len() - fi,
    {
        let n = features[fi].geometry.len();
        proof {
            assert(features@.take(fi + 1).drop_last() =~= features@.take(fi as int));
            assert(features@.take(fi + 1).last() == features@[fi as int]);
        }
        if n > (MAX_TESSELLATION_VERTICES - total) as usize {
            proof {
                lemma_total_points_monotone(features@, fi + 1);
            }
            return None;
        }
        total = total + n as u32;
        fi = fi + 1;
    }
    proof {
        assert(features@.take(features@.len() as int) =~= features@);
        lemma_layer_vertices_len(features@);
    }
    // Second pass: emit vertices, indices and per-feature counts.
    let mut verts: Vec<ShaderVertex> = Vec::new();
    let mut idx: Vec<u32> = Vec::new();
    let mut counts: Vec<u32> = Vec::new();
    let mut base: u32 = 0;
    let mut fi: usize = 0;
    while fi < features.len()
        invariant
            fi <= features@.len() <= u32::MAX,
            spec_total_points(features@) <= MAX_TESSELLATION_VERTICES,
            base == spec_layer_vertices(features@.take(fi as int)).len(),
            base == spec_total_points(features@.take(fi as int)),
            base <= MAX_TESSELLATION_VERTICES,
            verts@ == spec_layer_vertices(features@.take(fi as int)),
            idx@.map_values(|v: u32| v as int) == spec_layer_indices(features@.take(fi as int)),
            counts@.map_values(|c: u32| c as int) == spec_feature_index_counts(
                features@.take(fi as int),
            ),
        decreases features@.len() - fi,
    {
        let ghost prefix = features@.take(fi as int);
        let ghost whole = features@.take(fi + 1);
        proof {
            assert(whole.drop_last() =~= prefix);
            assert(whole.last() == features@[fi as int]);
            lemma_total_points_monotone(features@, fi + 1);
            lemma_layer_vertices_len(prefix);
            lemma_layer_vertices_len(whole);
        }
        let f = &features[fi];
        let n = f.geometry.len();
        assert(base + n <= MAX_TESSELLATION_VERTICES);
        let prim = fi as u32;
        // Vertices: one per point, in point order.
        let mut pi: usize = 0;
        while pi < n
            invariant
                pi <= n == f.geometry@.len(),
                f == features@[fi as int],
                fi < features@.len(),
                prim == fi as u32,
                verts@ == spec_layer_vertices(features@.take(fi as int)) + spec_feature_vertices(
                    *f,
                    prim,
                ).take(pi as int),
            decreases n - pi,
        {
            let p = f.geometry[pi];
            proof {
                assert(spec_feature_vertices(*f, prim).take(pi + 1) =~= spec_feature_vertices(
                    *f,
                    prim,
                ).take(pi as int).push(vertex_of(f.geometry@[pi as int], prim)));
            }
            verts.push(ShaderVertex { x: p.x, y: p.y, norm_x: 0, norm_y: 0, prim_id: prim });
            pi = pi + 1;
        }
        proof {
            assert(spec_feature_vertices(*f, prim).take(n as int) =~= spec_feature_vertices(
                *f,
                prim,
            ));
            assert(spec_layer_vertices(whole) == spec_layer_vertices(prefix)
                + spec_feature_vertices(*f, prim));
        }
        // Indices: emitted per geometry class, based at this feature's first
        // vertex.
        let ghost fidx = spec_feature_indices(features@[fi as int], base as int);
        let emitted: u32;
        match f.geom_type {
            GeometryType::Point => {
                let mut i: usize = 0;
                while i < n
                    invariant
                        i <= n == f.geometry@.len(),
                        f == features@[fi as int],
                        fi < features@.len(),
                        f.geom_type == GeometryType::Point,
                        base + n <= MAX_TESSELLATION_VERTICES,
                        fidx == spec_feature_indices(features@[fi as int], base as int),
                        idx@.map_values(|v: u32| v as int) == spec_layer_indices(
                            features@.take(fi as int),
                        ) + fidx.take(i as int),
                    decreases n - i,
                {
                    proof {
                        assert(fidx.take(i + 1) =~= fidx.take(i as int).push(base + i));
                        assert(idx@.push((base + i as u32) as u32).map_values(|v: u32| v as int)
                            =~= idx@.map_values(|v: u32| v as int).push(base + i));
                    }
                    idx.push(base + i as u32);
                    i = i + 1;
                }
                emitted = n as u32;
            },
            GeometryType::LineString => {
                if n < 2 {
                    emitted = 0;
                } else {
                    let mut j: usize = 0;
                    while j < n - 1
                        invariant
                            j <= n - 1,
                            n == f.geometry@.len(),
                            2 <= n,
                            f == features@[fi as int],
                            fi < features@.len(),
                            f.geom_type == GeometryType::LineString,
                            base + n <= MAX_TESSELLATION_VERTICES,
                            fidx == spec_feature_indices(features@[fi as int], base as int),
                            idx@.map_values(|v: u32| v as int) == spec_layer_indices(
                                features@.take(fi as int),
                            ) + fidx.take(2 * j),
                        decreases n - j,
                    {
                        proof {
                            assert(fidx[2 * j as int] == base + j) by {
                                vstd::arithmetic::div_mod::lemma_fundamental_div_mod_converse(
                                    2 * j,
                                    2,
                                    j as int,
                                    0,
                                );
                            }
                            assert(fidx[2 * j as int + 1] == base + j + 1) by {
                                vstd::arithmetic::div_mod::lemma_fundamental_div_mod_converse(
                                    2 * j + 1,
                                    2,
                                    j as int,
                                    1,
                                );
                            }
                            assert(fidx.take(2 * (j + 1)) =~= fidx.take(2 * j).push(
                                base + j,
                            ).push(base + j + 1));
                            let m = |v: u32| v as int;
                            assert(idx@.push((base + j as u32) as u32).push(
                                (base + j as u32 + 1) as u32,
                            ).map_values(m) =~= idx@.map_values(m).push(base + j).push(
                                base + j + 1,
                            ));
                        }
                        idx.push(base + j as u32);
                        idx.push(base + j as u32 + 1);
                        j = j + 1;
                    }
                    proof {
                        assert(fidx.take(2 * (n - 1)) =~= fidx);
                    }
                    emitted = 2 * (n as u32 - 1);
                }
            },
            GeometryType::Polygon => {
                if n < 3 {
                    emitted = 0;
                } else {
                    let mut t: usize = 0;
                    while t < n - 2
                        invariant
                            t <= n - 2,
                            n == f.geometry@.len(),
                            3 <= n,
                            f == features@[fi as int],
                            fi < features@.len(),
                            f.geom_type == GeometryType::Polygon,
                            base + n <= MAX_TESSELLATION_VERTICES,
                            fidx == spec_feature_indices(features@[fi as int], base as int),
                            idx@.map_values(|v: u32| v as int) == spec_layer_indices(
                                features@.take(fi as int),
                            ) + fidx.take(3 * t),
                        decreases n - t,
                    {
                        proof {
                            vstd::arithmetic::div_mod::lemma_fundamental_div_mod_converse(
                                3 * t,
                                3,
                                t as int,
                                0,
                            );
                            vstd::arithmetic::div_mod::lemma_fundamental_div_mod_converse(
                                3 * t + 1,
                                3,
                                t as int,
                                1,
                            );
                            vstd::arithmetic::div_mod::lemma_fundamental_div_mod_converse(
                                3 * t + 2,
                                3,
                                t as int,
                                2,
                            );
                            assert(fidx[3 * t as int] == base);
                            assert(fidx[3 * t as int + 1] == base + t + 1);
                            assert(fidx[3 * t as int + 2] == base + t + 2);
                            assert(fidx.take(3 * (t + 1)) =~= fidx.take(3 * t).push(
                                base as int,
                            ).push(base + t + 1).push(base + t + 2));
                            let m = |v: u32| v as int;
                            assert(idx@.push(base).push((base + t as u32 + 1) as u32).push(
                                (base + t as u32 + 2) as u32,
                            ).map_values(m) =~= idx@.map_values(m).push(base as int).push(
                                base + t + 1,
                            ).push(base + t + 2));
                        }
                        idx.push(base);
                        idx.push(base + t as u32 + 1);
                        idx.push(base + t as u32 + 2);
                        t = t + 1;
                    }
                    proof {
                        assert(fidx.take(3 * (n - 2)) =~= fidx);
                    }
                    emitted = 3 * (n as u32 - 2);
                }
            },
        }
        proof {
            assert(spec_feature_indices(features@[fi as int], 0).len() == fidx.len());
            assert(emitted as int == fidx.len());
            assert(spec_layer_indices(whole) == spec_layer_indices(prefix) + fidx);
            let m = |c: u32| c as int;
            assert(counts@.push(emitted).map_values(m) =~= counts@.map_values(m).push(
                emitted as int,
            ));
            assert(spec_feature_index_counts(whole) =~= spec_feature_index_counts(prefix).push(
                fidx.len() as int,
            ));
        }
        counts.push(emitted);
        base = base + n as u32;
        fi = fi + 1;
    }
    proof {
        assert(features@.take(features@.len() as int) =~= features@);
        lemma_layer_indices_bounded(features@);
        let m32 = |v: u32| v as int;
        assert forall|k: int| 0 <= k < idx@.len() implies 0 <= #[trigger] idx@[k]
            < verts@.len() by {
            assert(idx@.map_values(m32)[k] == idx@[k] as int);
        }
    }
    // Pick the narrowest index width the vertex count allows.
    let indices = if verts.len() <= u16::MAX as usize {
        let mut narrow: Vec<u16> = Vec::new();
        let mut i: usize = 0;
        while i < idx.len()
            invariant
                i <= idx@.len(),
                verts@.len() <= u16::MAX,
                forall|k: int|
                    0 <= k < idx@.len() ==> 0 <= #[trigger] idx@[k] < verts@.len(),
                narrow@.map_values(|v: u16| v as int) == idx@.map_values(|v: u32| v as int).take(
                    i as int,
                ),
            decreases idx@.len() - i,
        {
            proof {
                let m32 = |v: u32| v as int;
                let m16 = |v: u16| v as int;
                assert(narrow@.push(idx@[i as int] as u16).map_values(m16) =~= narrow@.map_values(
                    m16,
                ).push(idx@[i as int] as int));
                assert(idx@.map_values(m32).take(i + 1) =~= idx@.map_values(m32).take(
                    i as int,
                ).push(idx@[i as int] as int));
            }
            let v = idx[i];
            narrow.push(v as u16);
            i = i + 1;
        }
        proof {
            let m32 = |v: u32| v as int;
            assert(idx@.map_values(m32).take(idx@.len() as int) =~= idx@.map_values(m32));
        }
        IndexBuffer::Narrow(narrow)
    } else {
        IndexBuffer::Wide(idx)
    };
    Some((OverAlignedVertexBuffer { vertices: verts, indices }, counts))
}

} // verus!
