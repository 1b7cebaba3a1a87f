//! Tile request identity and deduplication of in-flight work.
//!
//! A request names a coordinate and the layer names wanted from it; a
//! request id is a correlation token that ties asynchronous stage outputs
//! back to the originating request within one pipeline run.

use vstd::prelude::*;
use crate::coords::WorldTileCoords;
use crate::layer::Layer;
use crate::tessellate::OverAlignedVertexBuffer;

verus! {

/// Correlation token for one admitted tile request.
pub type TileRequestID = u32;

/// What is wanted: a tile coordinate plus the layer names the current style
/// needs from it. Layer sets are compared by value.
#[derive(Debug)]
pub struct TileRequest {
    pub coords: WorldTileCoords,
    pub layers: Vec<String>,
}

/// The given names with every repetition of an earlier name dropped: the
/// requested layers form a set, compared by value.
pub open spec fn spec_unique_names(names: Seq<Seq<char>>) -> Seq<Seq<char>>
    decreases names.len(),
{
    if names.len() == 0 {
        Seq::empty()
    } else {
        let rest = spec_unique_names(names.drop_last());
        if rest.contains(names.last()) {
            rest
        } else {
            rest.push(names.last())
        }
    }
}

/// Whether `name` occurs among the names of `v`.
fn contains_name(v: &Vec<String>, name: &String) -> (r: bool)
    ensures
        r == v@.map_values(|s: String| s@).contains(name@),
{
    let ghost names = v@.map_values(|s: String| s@);
    let mut i: usize = 0;
    while i < v.len()
        invariant
            i <= v@.len(),
            names == v@.map_values(|s: String| s@),
            forall|j: int| 0 <= j < i ==> names[j] != name@,
        decreases v@.len() - i,
    {
        if v[i] == *name {
            proof {
                assert(names[i as int] == name@);
            }
            return true;
        }
        i = i + 1;
    }
    false
}

impl TileRequest {
    /// The requested layer names, as character sequences.
    pub open spec fn layer_names(&self) -> Seq<Seq<char>> {
        self.layers@.map_values(|s: String| s@)
    }

    /// Whether `name` is one of the requested layers.
    pub open spec fn requests_layer(&self, name: Seq<char>) -> bool {
        self.layer_names().contains(name)
    }

    /// The layers form a set: no name occurs twice.
    pub open spec fn wf(&self) -> bool {
        forall|i: int, j: int|
            0 <= i < j < self.layers@.len() ==> (#[trigger] self.layers@[i])@ != (
            #[trigger] self.layers@[j])@
    }

    /// Builds the request from a coordinate and the wanted layer names; a
    /// name given twice is kept once, at its first position.
    pub fn new(coords: WorldTileCoords, layers: Vec<String>) -> (r: TileRequest)
        ensures
            r.coords == coords,
            r.wf(),
            r.layer_names() == spec_unique_names(layers@.map_values(|s: String| s@)),
    {
        let ghost all = layers@.map_values(|s: String| s@);
        let mut remaining = layers;
        let mut unique: Vec<String> = Vec::new();
        let ghost mut i: int = 0;
        proof {
            assert(all.take(0) =~= Seq::<Seq<char>>::empty());
        }
        while remaining.len() > 0
            invariant
                0 <= i <= all.len(),
                remaining@.map_values(|s: String| s@) =~= all.skip(i),
                unique@.map_values(|s: String| s@) == spec_unique_names(all.take(i)),
                forall|a: int, b: int|
                    0 <= a < b < unique@.len() ==> (#[trigger] unique@[a])@ != (
                    #[trigger] unique@[b])@,
            decreases remaining@.len(),
        {
            let ghost rem = remaining@;
            let name = remaining.remove(0);
            proof {
                let m = |s: String| s@;
                assert(rem.map_values(m).len() == rem.len());
                assert(i < all.len());
                assert(rem.map_values(m)[0] == rem[0]@);
                assert(name@ == all[i]) by {
                    assert(rem.map_values(m) == all.skip(i));
                    assert(all.skip(i)[0] == all[i]);
                }
                assert(remaining@ =~= rem.drop_first());
                assert forall|q: int|
                    0 <= q < remaining@.len() implies remaining@.map_values(m)[q] == all.skip(
                    i + 1,
                )[q] by {
                    assert(remaining@.map_values(m)[q] == remaining@[q]@);
                    assert(remaining@[q] == rem[q + 1]);
                    assert(rem.map_values(m)[q + 1] == rem[q + 1]@);
                    assert(all.skip(i)[q + 1] == all[i + 1 + q]);
                    assert(all.skip(i + 1)[q] == all[i + 1 + q]);
                }
                assert(remaining@.map_values(m) =~= all.skip(i + 1));
                assert(all.take(i + 1).drop_last() =~= all.take(i));
                assert(all.take(i + 1)[i] == all[i]);
            }
            let seen = contains_name(&unique, &name);
            if !seen {
                proof {
                    let m = |s: String| s@;
                    assert(unique@.push(name).map_values(m) =~= unique@.map_values(m).push(
                        name@,
                    ));
                    assert forall|a: int|
                        0 <= a < unique@.len() implies (#[trigger] unique@[a])@ != name@ by {
                        assert(unique@.map_values(m)[a] == unique@[a]@);
                    }
                }
                unique.push(name);
            }
            proof {
                i = i + 1;
            }
        }
        proof {
            assert(all.take(all.len() as int) =~= all);
        }
        TileRequest { coords, layers: unique }
    }

    /// Whether `name` is one of the requested layers, compared by value.
    pub fn has_layer(&self, name: &String) -> (r: bool)
        ensures
            r == self.requests_layer(name@),
    {
        let mut i: usize = 0;
        while i < self.layers.len()
            invariant
                i <= self.layers@.len(),
                forall|j: int| 0 <= j < i ==> self.layer_names()[j] != name@,
            decreases self.layers@.len() - i,
        {
            if self.layers[i] == *name {
                assert(self.layer_names()[i as int] == name@);
                return true;
            }
            i = i + 1;
        }
        assert(forall|j: int|
            0 <= j < self.layer_names().len() ==> self.layer_names()[j] != name@);
        false
    }
}

/// Result of one fetch: either the raw bytes of the tile, or a marker that
/// the transport could not provide it.
#[derive(Debug)]
pub enum TileFetchResult {
    Unavailable { coords: WorldTileCoords },
    Tile { coords: WorldTileCoords, data: Vec<u8> },
}

impl TileFetchResult {
    /// The coordinate the fetch was for.
    pub open spec fn spec_coords(&self) -> WorldTileCoords {
        match self {
            TileFetchResult::Unavailable { coords } => *coords,
            TileFetchResult::Tile { coords, .. } => *coords,
        }
    }

    pub fn get_coords(&self) -> (r: WorldTileCoords)
        ensures
            r == self.spec_coords(),
    {
        match self {
            TileFetchResult::Unavailable { coords } => *coords,
            TileFetchResult::Tile { coords, .. } => *coords,
        }
    }
}

/// Marks the completion of every stage for one request.
#[derive(Debug)]
pub struct TileTessellateMessage {
    pub request_id: TileRequestID,
    pub coords: WorldTileCoords,
}

/// Outcome of tessellating one requested layer of one tile: either the
/// renderable buffers, or a marker that the layer was missing or malformed.
/// A missing layer never fails the whole tile.
#[derive(Debug)]
pub enum LayerTessellateMessage {
    UnavailableLayer { coords: WorldTileCoords, layer_name: String },
    TessellatedLayer {
        coords: WorldTileCoords,
        buffer: OverAlignedVertexBuffer,
        /// Holds for each feature the count of indices.
        feature_indices: Vec<u32>,
        layer_data: Layer,
    },
}

impl LayerTessellateMessage {
    /// The coordinate the layer belongs to.
    pub open spec fn spec_coords(&self) -> WorldTileCoords {
        match self {
            LayerTessellateMessage::UnavailableLayer { coords, .. } => *coords,
            LayerTessellateMessage::TessellatedLayer { coords, .. } => *coords,
        }
    }

    /// The name of the layer the message is about.
    pub open spec fn spec_layer_name(&self) -> Seq<char> {
        match self {
            LayerTessellateMessage::UnavailableLayer { layer_name, .. } => layer_name@,
            LayerTessellateMessage::TessellatedLayer { layer_data, .. } => layer_data.name@,
        }
    }

    pub fn get_coords(&self) -> (r: WorldTileCoords)
        ensures
            r == self.spec_coords(),
    {
        match self {
            LayerTessellateMessage::UnavailableLayer { coords, .. } => *coords,
            LayerTessellateMessage::TessellatedLayer { coords, .. } => *coords,
        }
    }

    pub fn layer_name(&self) -> (r: &str)
        ensures
            r@ == self.spec_layer_name(),
    {
        match self {
            LayerTessellateMessage::UnavailableLayer { layer_name, .. } => layer_name.as_str(),
            LayerTessellateMessage::TessellatedLayer { layer_data, .. } => layer_data.name.as_str(),
        }
    }
}

/// A completed unit of background work, as delivered on the message bus.
#[derive(Debug)]
pub enum TessellateMessage {
    Tile(TileTessellateMessage),
    Layer(LayerTessellateMessage),
}

/// Tracks which requests are in flight and hands out correlation ids.
/// Requests are the unit of deduplication: a coordinate with a pending
/// request is never admitted a second time.
#[derive(Debug)]
pub struct TileRequestState {
    pub current_id: TileRequestID,
    pub pending_requests: Vec<(TileRequestID, TileRequest)>,
}

impl TileRequestState {
    /// Whether some pending request is for coordinate `c`.
    pub open spec fn has_pending_coords(&self, c: WorldTileCoords) -> bool {
        exists|i: int|
            0 <= i < self.pending_requests@.len() && (#[trigger] self.pending_requests@[i]).1.coords
                == c
    }

    /// Whether `id` identifies some pending request.
    pub open spec fn has_id(&self, id: TileRequestID) -> bool {
        exists|i: int|
            0 <= i < self.pending_requests@.len() && (#[trigger] self.pending_requests@[i]).0 == id
    }

    /// Ids are pairwise distinct and below the next id to hand out.
    pub open spec fn wf(&self) -> bool {
        &&& forall|i: int, j: int|
            0 <= i < j < self.pending_requests@.len() ==> (
            #[trigger] self.pending_requests@[i]).0 != (#[trigger] self.pending_requests@[j]).0
        &&& forall|i: int|
            0 <= i < self.pending_requests@.len() ==> (#[trigger] self.pending_requests@[i]).0
                < self.current_id
    }

    pub fn new() -> (r: TileRequestState)
        ensures
            r.wf(),
            r.pending_requests@.len() == 0,
            r.current_id == 1,
    {
        TileRequestState { current_id: 1, pending_requests: Vec::new() }
    }

    /// Whether a request for coordinate `coords` is currently in flight.
    pub fn is_tile_request_pending(&self, coords: &WorldTileCoords) -> (r: bool)
        ensures
            r == self.has_pending_coords(*coords),
    {
        let mut i: usize = 0;
        while i < self.pending_requests.len()
            invariant
                i <= self.pending_requests@.len(),
                forall|j: int|
                    0 <= j < i ==> (#[trigger] self.pending_requests@[j]).1.coords != *coords,
            decreases self.pending_requests@.len() - i,
        {
            if self.pending_requests[i].1.coords == *coords {
                return true;
            }
            i = i + 1;
        }
        false
    }

    /// Admits a request unless one for the same coordinate is already in
    /// flight (or the id space is exhausted): returns the fresh correlation
    /// id on admission and `None`, leaving the state unchanged, on refusal.
    pub fn start_tile_request(&mut self, request: TileRequest) -> (r: Option<TileRequestID>)
        requires
            old(self).wf(),
        ensures
            final(self).wf(),
            r is Some <==> !old(self).has_pending_coords(request.coords) && old(self).current_id
                < TileRequestID::MAX,
            r is None ==> *final(self) == *old(self),
            r matches Some(id) ==> {
                &&& id == old(self).current_id
                &&& final(self).current_id == old(self).current_id + 1
                &&& final(self).pending_requests@ == old(self).pending_requests@.push(
                    (id, request),
                )
            },
    {
        if self.is_tile_request_pending(&request.coords) {
            return None;
        }
        if self.current_id == TileRequestID::MAX {
            return None;
        }
        let id = self.current_id;
        self.pending_requests.push((id, request));
        self.current_id = self.current_id + 1;
        Some(id)
    }

    /// Takes the pending request identified by `id` out of the in-flight
    /// set, returning it; `None`, leaving the state unchanged, when no such
    /// request is pending.
    pub fn finish_tile_request(&mut self, id: TileRequestID) -> (r: Option<TileRequest>)
        requires
            old(self).wf(),
        ensures
            final(self).wf(),
            r is Some <==> old(self).has_id(id),
            r is None ==> *final(self) == *old(self),
            r matches Some(req) ==> exists|i: int|
                {
                    &&& 0 <= i < old(self).pending_requests@.len()
                    &&& (#[trigger] old(self).pending_requests@[i]).0 == id
                    &&& req == old(self).pending_requests@[i].1
                    &&& final(self).pending_requests@ == old(self).pending_requests@.remove(i)
                    &&& final(self).current_id == old(self).current_id
                },
    {
        let ghost orig = *self;
        let mut i: usize = 0;
        while i < self.pending_requests.len()
            invariant
                i <= self.pending_requests@.len(),
                *self == orig,
                orig.wf(),
                orig == *old(self),
                forall|j: int| 0 <= j < i ==> (#[trigger] self.pending_requests@[j]).0 != id,
            decreases self.pending_requests@.len() - i,
        {
            if self.pending_requests[i].0 == id {
                let ghost before = self.pending_requests@;
                let (_, req) = self.pending_requests.remove(i);
                proof {
                    let after = self.pending_requests@;
                    before.remove_ensures(i as int);
                    assert(after == before.remove(i as int));
                    assert(before == orig.pending_requests@);
                    assert(forall|x: int, y: int|
                        0 <= x < y < before.len() ==> (#[trigger] before[x]).0 != (
                        #[trigger] before[y]).0);
                    assert forall|a: int, b: int|
                        0 <= a < b < after.len() implies (#[trigger] after[a]).0 != (
                    #[trigger] after[b]).0 by {
                        if b < i {
                            assert(before.remove(i as int)[a] == before[a]);
                            assert(before.remove(i as int)[b] == before[b]);
                            assert(before[a].0 != before[b].0);
                        } else if a < i {
                            assert(before.remove(i as int)[a] == before[a]);
                            assert(before.remove(i as int)[b] == before[b + 1]);
                            assert(before[a].0 != before[b + 1].0);
                        } else {
                            assert(before.remove(i as int)[a] == before[a + 1]);
                            assert(before.remove(i as int)[b] == before[b + 1]);
                            assert(before[a + 1].0 != before[b + 1].0);
                        }
                    }
                    assert forall|a: int| 0 <= a < after.len() implies (#[trigger] after[a]).0
                        < self.current_id by {
                        if a < i {
                            assert(before.remove(i as int)[a] == before[a]);
                        } else {
                            assert(before.remove(i as int)[a] == before[a + 1]);
                        }
                    }
                }
                return Some(req);
            }
            i = i + 1;
        }
        None
    }
}

/// Deduplication of identical requests: once a request for a coordinate has
/// been admitted, the in-flight set holds that coordinate, so a second
/// request for it is refused until the first finishes — only one fetch is
/// ever issued for it.
pub proof fn lemma_duplicate_request_refused(
    before: TileRequestState,
    after: TileRequestState,
    admitted: TileRequest,
    duplicate: TileRequest,
    id: TileRequestID,
)
    requires
        after.pending_requests@ == before.pending_requests@.push((id, admitted)),
        duplicate.coords == admitted.coords,
    ensures
        after.has_pending_coords(duplicate.coords),
{
    let n = before.pending_requests@.len() as int;
    assert(after.pending_requests@[n].1.coords == duplicate.coords);
}

} // verus!
