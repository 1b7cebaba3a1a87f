//! Spatial index over tile-local geometry: point queries over the features
//! of indexed tiles, for hit-testing and picking independent of render
//! state.

use vstd::prelude::*;
use crate::coords::{WorldTileCoords, EXTENT_SINT};
use crate::layer::Layer;

verus! {

/// One indexed feature: its id within its layer and the axis-aligned bounds
/// of its geometry in tile-local space. An empty feature has an empty box
/// that contains no point.
#[derive(Clone, Copy, Debug, PartialEq, Eq, Structural)]
pub struct IndexedFeature {
    pub feature_id: u32,
    pub min_x: i32,
    pub min_y: i32,
    pub max_x: i32,
    pub max_y: i32,
}

impl IndexedFeature {
    /// Whether the feature's bounds contain a tile-local point.
    pub open spec fn spec_contains(&self, x: int, y: int) -> bool {
        self.min_x <= x <= self.max_x && self.min_y <= y <= self.max_y
    }

    pub fn contains(&self, x: i32, y: i32) -> (r: bool)
        ensures
            r == self.spec_contains(x as int, y as int),
    {
        self.min_x <= x && x <= self.max_x && self.min_y <= y && y <= self.max_y
    }
}

/// The ids of the features of `fs`, in stored order, whose bounds contain
/// the point.
pub open spec fn spec_point_hits(fs: Seq<IndexedFeature>, x: int, y: int) -> Seq<u32>
    decreases fs.len(),
{
    if fs.len() == 0 {
        Seq::empty()
    } else if fs[0].spec_contains(x, y) {
        seq![fs[0].feature_id] + spec_point_hits(fs.drop_first(), x, y)
    } else {
        spec_point_hits(fs.drop_first(), x, y)
    }
}

/// Spatial index over the indexed feature bounds of tiles, keyed by
/// coordinate; one entry per coordinate.
#[derive(Debug)]
pub struct GeometryIndex {
    pub entries: Vec<(WorldTileCoords, Vec<IndexedFeature>)>,
}

impl GeometryIndex {
    /// Whether the index holds an entry for coordinate `c`.
    pub open spec fn has_coords(&self, c: WorldTileCoords) -> bool {
        exists|i: int| 0 <= i < self.entries@.len() && (#[trigger] self.entries@[i]).0 == c
    }

    /// One entry per coordinate.
    pub open spec fn wf(&self) -> bool {
        forall|i: int, j: int|
            0 <= i < j < self.entries@.len() ==> (#[trigger] self.entries@[i]).0 != (
            #[trigger] self.entries@[j]).0
    }

    pub fn new() -> (r: GeometryIndex)
        ensures
            r.wf(),
            r.entries@.len() == 0,
    {
        GeometryIndex { entries: Vec::new() }
    }

    /// Stores the indexed features of a tile, replacing whatever was
    /// indexed for that coordinate before.
    pub fn insert(&mut self, coords: WorldTileCoords, features: Vec<IndexedFeature>)
        requires
            old(self).wf(),
        ensures
            final(self).wf(),
            final(self).has_coords(coords),
            !old(self).has_coords(coords) ==> final(self).entries@ == old(self).entries@.push(
                (coords, features),
            ),
            old(self).has_coords(coords) ==> exists|i: int|
                {
                    &&& 0 <= i < old(self).entries@.len()
                    &&& (#[trigger] old(self).entries@[i]).0 == coords
                    &&& final(self).entries@ == old(self).entries@.update(i, (coords, features))
                },
    {
        let ghost orig = *self;
        let mut i: usize = 0;
        while i < self.entries.len()
            invariant
                i <= self.entries@.len(),
                *self == orig,
                orig.wf(),
                orig == *old(self),
                forall|j: int| 0 <= j < i ==> (#[trigger] self.entries@[j]).0 != coords,
            decreases self.entries@.len() - i,
        {
            if self.entries[i].0 == coords {
                let ghost before = self.entries@;
                let _ = self.entries.remove(i);
                self.entries.insert(i, (coords, features));
                proof {
                    before.remove_ensures(i as int);
                    assert(self.entries@ =~= before.update(i as int, (coords, features)));
                    assert(self.entries@[i as int].0 == coords);
                    assert forall|a: int, b: int|
                        0 <= a < b < self.entries@.len() implies (
                    #[trigger] self.entries@[a]).0 != (#[trigger] self.entries@[b]).0 by {
                        assert(before[a].0 != before[b].0);
                    }
                }
                return ;
            }
            i = i + 1;
        }
        self.entries.push((coords, features));
        proof {
            assert(self.entries@[orig.entries@.len() as int].0 == coords);
            assert forall|a: int, b: int|
                0 <= a < b < self.entries@.len() implies (#[trigger] self.entries@[a]).0 != (
            #[trigger] self.entries@[b]).0 by {
                if b < self.entries@.len() - 1 {
                    assert(orig.entries@[a].0 != orig.entries@[b].0);
                } else {
                    assert(self.entries@[a] == orig.entries@[a]);
                }
            }
        }
    }

    /// The ids of the indexed features of `coords` whose bounds contain the
    /// tile-local point, in indexed order; empty when the tile is not
    /// indexed. A read path independent of the render pipeline.
    pub fn query_point(&self, coords: &WorldTileCoords, x: i32, y: i32) -> (r: Vec<u32>)
        requires
            self.wf(),
        ensures
            !self.has_coords(*coords) ==> r@.len() == 0,
            forall|i: int|
                0 <= i < self.entries@.len() && (#[trigger] self.entries@[i]).0 == *coords ==> r@
                    == spec_point_hits(self.entries@[i].1@, x as int, y as int),
    {
        let mut i: usize = 0;
        while i < self.entries.len()
            invariant
                i <= self.entries@.len(),
                self.wf(),
                forall|j: int| 0 <= j < i ==> (#[trigger] self.entries@[j]).0 != *coords,
            decreases self.entries@.len() - i,
        {
            if self.entries[i].0 == *coords {
                let features = &self.entries[i].1;
                let ghost all = features@;
                let mut hits: Vec<u32> = Vec::new();
                let mut k: usize = 0;
                proof {
                    assert(all.skip(0) =~= all);
                    assert(Seq::<u32>::empty() + spec_point_hits(all, x as int, y as int)
                        =~= spec_point_hits(all, x as int, y as int));
                }
                while k < features.len()
                    invariant
                        k <= all.len(),
                        all == features@,
                        features == &self.entries@[i as int].1,
                        i < self.entries@.len(),
                        spec_point_hits(all, x as int, y as int) == hits@ + spec_point_hits(
                            all.skip(k as int),
                            x as int,
                            y as int,
                        ),
                    decreases all.len() - k,
                {
                    let ghost rest = all.skip(k as int);
                    let f = features[k];
                    proof {
                        assert(rest[0] == all[k as int]);
                        assert(rest.drop_first() =~= all.skip(k as int + 1));
                        if f.spec_contains(x as int, y as int) {
                            assert(spec_point_hits(rest, x as int, y as int) == seq![f.feature_id]
                                + spec_point_hits(all.skip(k as int + 1), x as int, y as int));
                            assert(hits@.push(f.feature_id) + spec_point_hits(
                                all.skip(k as int + 1),
                                x as int,
                                y as int,
                            ) =~= hits@ + spec_point_hits(rest, x as int, y as int));
                        }
                    }
                    if f.contains(x, y) {
                        hits.push(f.feature_id);
                    }
                    k = k + 1;
                }
                proof {
                    assert(all.skip(all.len() as int) =~= Seq::<IndexedFeature>::empty());
                    assert(hits@ + Seq::<u32>::empty() =~= hits@);
                    assert forall|j: int|
                        0 <= j < self.entries@.len() && (#[trigger] self.entries@[j]).0
                            == *coords implies j == i as int by {
                        if j < i as int {
                        } else if j > i as int {
                            assert(self.entries@[i as int].0 != self.entries@[j].0);
                        }
                    }
                }
                return hits;
            }
            i = i + 1;
        }
        Vec::new()
    }
}

/// The query point's horizontal position in tile `n`'s local space, for a
/// query anchored in tile `c` at local `x`: a neighboring tile of the same
/// zoom level sees the point shifted by whole tile extents.
pub open spec fn spec_local_x(c: WorldTileCoords, n: WorldTileCoords, x: int) -> int {
    x + (c.x - n.x) * (EXTENT_SINT as int)
}

/// The query point's vertical position in tile `n`'s local space.
pub open spec fn spec_local_y(c: WorldTileCoords, n: WorldTileCoords, y: int) -> int {
    y + (c.y - n.y) * (EXTENT_SINT as int)
}

/// The (coordinate, feature id) pairs one indexed tile contributes to a
/// query at its local point, in indexed order.
pub open spec fn spec_tile_pairs(
    n: WorldTileCoords,
    fs: Seq<IndexedFeature>,
    lx: int,
    ly: int,
) -> Seq<(WorldTileCoords, u32)>
    decreases fs.len(),
{
    if fs.len() == 0 {
        Seq::empty()
    } else if fs[0].spec_contains(lx, ly) {
        seq![(n, fs[0].feature_id)] + spec_tile_pairs(n, fs.drop_first(), lx, ly)
    } else {
        spec_tile_pairs(n, fs.drop_first(), lx, ly)
    }
}

/// The (coordinate, feature id) pairs the whole index yields for a point:
/// every indexed tile of the query's zoom level contributes the features
/// whose footprints contain the point in that tile's local space.
pub open spec fn spec_query_pairs(
    entries: Seq<(WorldTileCoords, Vec<IndexedFeature>)>,
    c: WorldTileCoords,
    x: int,
    y: int,
) -> Seq<(WorldTileCoords, u32)>
    decreases entries.len(),
{
    if entries.len() == 0 {
        Seq::empty()
    } else {
        (if entries[0].0.z == c.z {
            spec_tile_pairs(
                entries[0].0,
                entries[0].1@,
                spec_local_x(c, entries[0].0, x),
                spec_local_y(c, entries[0].0, y),
            )
        } else {
            Seq::empty()
        }) + spec_query_pairs(entries.drop_first(), c, x, y)
    }
}

impl GeometryIndex {
    /// Queries the whole index for a point given in the local space of
    /// tile `coords`: every indexed tile of that zoom level reports, as
    /// (coordinate, feature id) pairs in stored order, the features whose
    /// footprints contain the point — so geometry spilling over a tile
    /// edge is found from its neighbors too.
    pub fn query(&self, coords: &WorldTileCoords, x: i32, y: i32) -> (r: Vec<
        (WorldTileCoords, u32),
    >)
        ensures
            r@ == spec_query_pairs(self.entries@, *coords, x as int, y as int),
    {
        let mut out: Vec<(WorldTileCoords, u32)> = Vec::new();
        let mut i: usize = 0;
        proof {
            assert(self.entries@.skip(0) =~= self.entries@);
            assert(Seq::<(WorldTileCoords, u32)>::empty() + spec_query_pairs(
                self.entries@,
                *coords,
                x as int,
                y as int,
            ) =~= spec_query_pairs(self.entries@, *coords, x as int, y as int));
        }
        while i < self.entries.len()
            invariant
                i <= self.entries@.len(),
                spec_query_pairs(self.entries@, *coords, x as int, y as int) == out@
                    + spec_query_pairs(self.entries@.skip(i as int), *coords, x as int, y as int),
            decreases self.entries@.len() - i,
        {
            let ghost rest = self.entries@.skip(i as int);
            let entry = &self.entries[i];
            proof {
                assert(rest[0] == self.entries@[i as int]);
                assert(rest.drop_first() =~= self.entries@.skip(i as int + 1));
            }
            if entry.0.z.0 == coords.z.0 {
                let lx = x as i64 + (coords.x as i64 - entry.0.x as i64) * (EXTENT_SINT as i64);
                let ly = y as i64 + (coords.y as i64 - entry.0.y as i64) * (EXTENT_SINT as i64);
                proof {
                    assert(lx as int == spec_local_x(*coords, entry.0, x as int));
                    assert(ly as int == spec_local_y(*coords, entry.0, y as int));
                }
                let ghost base = out@;
                let ghost fs = entry.1@;
                let mut k: usize = 0;
                proof {
                    assert(fs.skip(0) =~= fs);
                    assert(out@.skip(base.len() as int)
                        =~= Seq::<(WorldTileCoords, u32)>::empty());
                    assert(Seq::<(WorldTileCoords, u32)>::empty() + spec_tile_pairs(
                        entry.0,
                        fs,
                        lx as int,
                        ly as int,
                    ) =~= spec_tile_pairs(entry.0, fs, lx as int, ly as int));
                    assert(out@.take(base.len() as int) =~= base);
                }
                while k < entry.1.len()
                    invariant
                        k <= fs.len(),
                        fs == entry.1@,
                        entry == &self.entries@[i as int],
                        i < self.entries@.len(),
                        lx as int == spec_local_x(*coords, entry.0, x as int),
                        ly as int == spec_local_y(*coords, entry.0, y as int),
                        spec_tile_pairs(entry.0, fs, lx as int, ly as int) == out@.skip(
                            base.len() as int,
                        ) + spec_tile_pairs(entry.0, fs.skip(k as int), lx as int, ly as int),
                        out@.take(base.len() as int) == base,
                        out@.len() >= base.len(),
                    decreases fs.len() - k,
                {
                    let ghost frest = fs.skip(k as int);
                    let f = entry.1[k];
                    proof {
                        assert(frest[0] == fs[k as int]);
                        assert(frest.drop_first() =~= fs.skip(k as int + 1));
                    }
                    let hit = f.min_x as i64 <= lx && lx <= f.max_x as i64 && f.min_y as i64 <= ly
                        && ly <= f.max_y as i64;
                    proof {
                        assert(hit == f.spec_contains(lx as int, ly as int));
                        if f.spec_contains(lx as int, ly as int) {
                            assert(spec_tile_pairs(entry.0, frest, lx as int, ly as int)
                                == seq![(entry.0, f.feature_id)] + spec_tile_pairs(
                                entry.0,
                                fs.skip(k as int + 1),
                                lx as int,
                                ly as int,
                            ));
                            assert(out@.push((entry.0, f.feature_id)).skip(base.len() as int)
                                =~= out@.skip(base.len() as int).push((entry.0, f.feature_id)));
                            assert(out@.skip(base.len() as int).push((entry.0, f.feature_id))
                                + spec_tile_pairs(
                                entry.0,
                                fs.skip(k as int + 1),
                                lx as int,
                                ly as int,
                            ) =~= out@.skip(base.len() as int) + spec_tile_pairs(
                                entry.0,
                                frest,
                                lx as int,
                                ly as int,
                            ));
                            assert(out@.push((entry.0, f.feature_id)).take(base.len() as int)
                                =~= base);
                        }
                    }
                    if hit {
                        out.push((entry.0, f.feature_id));
                    }
                    k = k + 1;
                }
                proof {
                    assert(fs.skip(fs.len() as int)
                        =~= Seq::<IndexedFeature>::empty());
                    assert(out@.skip(base.len() as int) + Seq::<(WorldTileCoords, u32)>::empty()
                        =~= out@.skip(base.len() as int));
                    assert(out@ =~= base + out@.skip(base.len() as int));
                    assert(entry.0.z == coords.z);
                    assert(spec_query_pairs(rest, *coords, x as int, y as int)
                        == spec_tile_pairs(entry.0, fs, lx as int, ly as int) + spec_query_pairs(
                        self.entries@.skip(i as int + 1),
                        *coords,
                        x as int,
                        y as int,
                    ));
                    assert(out@ + spec_query_pairs(
                        self.entries@.skip(i as int + 1),
                        *coords,
                        x as int,
                        y as int,
                    ) =~= base + spec_query_pairs(rest, *coords, x as int, y as int));
                }
            } else {
                proof {
                    assert(entry.0.z != coords.z);
                    assert(spec_query_pairs(rest, *coords, x as int, y as int)
                        == Seq::<(WorldTileCoords, u32)>::empty() + spec_query_pairs(
                        self.entries@.skip(i as int + 1),
                        *coords,
                        x as int,
                        y as int,
                    ));
                    assert(Seq::<(WorldTileCoords, u32)>::empty() + spec_query_pairs(
                        self.entries@.skip(i as int + 1),
                        *coords,
                        x as int,
                        y as int,
                    ) =~= spec_query_pairs(
                        self.entries@.skip(i as int + 1),
                        *coords,
                        x as int,
                        y as int,
                    ));
                }
            }
            i = i + 1;
        }
        proof {
            assert(self.entries@.skip(self.entries@.len() as int)
                =~= Seq::<(WorldTileCoords, Vec<IndexedFeature>)>::empty());
            assert(out@ + Seq::<(WorldTileCoords, u32)>::empty() =~= out@);
        }
        out
    }
}

/// Builds the spatial footprints of a layer's features: entry `i` carries
/// feature id `i` and the tight bounds of that feature's points. A feature
/// without points gets an empty box.
pub fn index_layer_features(layer: &Layer) -> (r: Vec<IndexedFeature>)
    requires
        layer.features@.len() <= u32::MAX,
    ensures
        r@.len() == layer.features@.len(),
        forall|i: int| 0 <= i < r@.len() ==> (#[trigger] r@[i]).feature_id == i,
        forall|i: int, p: int|
            0 <= i < r@.len() && 0 <= p < layer.features@[i].geometry@.len()
                ==> (#[trigger] r@[i]).spec_contains(
                #[trigger] layer.features@[i].geometry@[p].x as int,
                layer.features@[i].geometry@[p].y as int,
            ),
        forall|i: int|
            0 <= i < r@.len() && layer.features@[i].geometry@.len() == 0 ==> !(
            #[trigger] r@[i]).spec_contains(r@[i].min_x as int, r@[i].min_y as int),
{
    let mut out: Vec<IndexedFeature> = Vec::new();
    let mut i: usize = 0;
    while i < layer.features.len()
        invariant
            i <= layer.features@.len() <= u32::MAX,
            out@.len() == i,
            forall|j: int| 0 <= j < i ==> (#[trigger] out@[j]).feature_id == j,
            forall|j: int, p: int|
                0 <= j < i && 0 <= p < layer.features@[j].geometry@.len()
                    ==> (#[trigger] out@[j]).spec_contains(
                    #[trigger] layer.features@[j].geometry@[p].x as int,
                    layer.features@[j].geometry@[p].y as int,
                ),
            forall|j: int|
                0 <= j < i && layer.features@[j].geometry@.len() == 0 ==> !(
                #[trigger] out@[j]).spec_contains(out@[j].min_x as int, out@[j].min_y as int),
        decreases layer.features@.len() - i,
    {
        let geometry = &layer.features[i].geometry;
        let mut feature = IndexedFeature {
            feature_id: i as u32,
            min_x: 0,
            min_y: 0,
            max_x: -1,
            max_y: -1,
        };
        if geometry.len() > 0 {
            let first = geometry[0];
            feature.min_x = first.x;
            feature.max_x = first.x;
            feature.min_y = first.y;
            feature.max_y = first.y;
            let mut p: usize = 1;
            while p < geometry.len()
                invariant
                    1 <= p <= geometry@.len(),
                    geometry == &layer.features@[i as int].geometry,
                    i < layer.features@.len(),
                    feature.feature_id == i,
                    feature.min_x <= feature.max_x && feature.min_y <= feature.max_y,
                    forall|q: int|
                        0 <= q < p ==> feature.spec_contains(
                            #[trigger] geometry@[q].x as int,
                            geometry@[q].y as int,
                        ),
                decreases geometry@.len() - p,
            {
                let point = geometry[p];
                if point.x < feature.min_x {
                    feature.min_x = point.x;
                }
                if point.x > feature.max_x {
                    feature.max_x = point.x;
                }
                if point.y < feature.min_y {
                    feature.min_y = point.y;
                }
                if point.y > feature.max_y {
                    feature.max_y = point.y;
                }
                p = p + 1;
            }
        }
        out.push(feature);
        i = i + 1;
    }
    out
}

} // verus!
