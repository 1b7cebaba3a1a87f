//! The consuming side of the pipeline: drains per-layer results from the
//! message bus and writes them into the tile cache. All cache mutation
//! happens here, in the single consuming context; producers only ever
//! append results onto the bus.

use vstd::prelude::*;
use crate::apc::{spec_drained, spec_left_queued, ApcBus, TagFilter};
use crate::cache::{
    seq_has_coords, spec_holds_layer, spec_is_tessellated_with, tessellated_layers, TileCache,
    TileState,
};
use crate::coords::WorldTileCoords;
use crate::request::{LayerTessellateMessage, TessellateMessage};

verus! {

/// Exactly the effect of storing one per-layer result, as a relation
/// between the cache entries before and after: the mirror of
/// [`TileCache::put_tessellated_layer`]'s contract.
pub open spec fn spec_layer_put_step(
    pre: Seq<(WorldTileCoords, TileState)>,
    post: Seq<(WorldTileCoords, TileState)>,
    lm: LayerTessellateMessage,
) -> bool {
    if !seq_has_coords(pre, lm.spec_coords()) {
        &&& post.len() == pre.len() + 1
        &&& post.take(pre.len() as int) == pre
        &&& post.last().0 == lm.spec_coords()
        &&& spec_is_tessellated_with(post.last().1, seq![lm])
    } else {
        exists|i: int|
            {
                &&& 0 <= i < pre.len()
                &&& (#[trigger] pre[i]).0 == lm.spec_coords()
                &&& post.len() == pre.len()
                &&& forall|j: int| 0 <= j < pre.len() && j != i ==> post[j] == pre[j]
                &&& post[i].0 == lm.spec_coords()
                &&& spec_is_tessellated_with(
                    post[i].1,
                    tessellated_layers(pre[i].1).push(lm),
                )
            }
    }
}

/// The effect of consuming one bus message: a per-layer result is stored,
/// anything else leaves the cache unchanged.
pub open spec fn spec_message_step(
    pre: Seq<(WorldTileCoords, TileState)>,
    post: Seq<(WorldTileCoords, TileState)>,
    m: TessellateMessage,
) -> bool {
    match m {
        TessellateMessage::Tile(_) => post == pre,
        TessellateMessage::Layer(lm) => spec_layer_put_step(pre, post, lm),
    }
}

/// The cache entries `post` are exactly the result of consuming `msgs`, in
/// order, starting from `pre`.
pub open spec fn spec_applied(
    pre: Seq<(WorldTileCoords, TileState)>,
    post: Seq<(WorldTileCoords, TileState)>,
    msgs: Seq<TessellateMessage>,
) -> bool
    decreases msgs.len(),
{
    if msgs.len() == 0 {
        post == pre
    } else {
        exists|mid: Seq<(WorldTileCoords, TileState)>|
            #[trigger] spec_message_step(pre, mid, msgs[0]) && spec_applied(
                mid,
                post,
                msgs.drop_first(),
            )
    }
}

/// Consuming one more message extends an applied run by one step.
proof fn lemma_applied_snoc(
    pre: Seq<(WorldTileCoords, TileState)>,
    mid: Seq<(WorldTileCoords, TileState)>,
    post: Seq<(WorldTileCoords, TileState)>,
    msgs: Seq<TessellateMessage>,
    m: TessellateMessage,
)
    requires
        spec_applied(pre, mid, msgs),
        spec_message_step(mid, post, m),
    ensures
        spec_applied(pre, post, msgs.push(m)),
    decreases msgs.len(),
{
    if msgs.len() == 0 {
        assert(mid == pre);
        assert(msgs.push(m)[0] == m);
        assert(msgs.push(m).drop_first() =~= Seq::<TessellateMessage>::empty());
        assert(spec_message_step(pre, post, msgs.push(m)[0]));
        assert(spec_applied(post, post, msgs.push(m).drop_first()));
    } else {
        let mid1 = choose|mid1: Seq<(WorldTileCoords, TileState)>|
            #[trigger] spec_message_step(pre, mid1, msgs[0]) && spec_applied(
                mid1,
                mid,
                msgs.drop_first(),
            );
        lemma_applied_snoc(mid1, mid, post, msgs.drop_first(), m);
        assert(msgs.push(m)[0] == msgs[0]);
        assert(msgs.push(m).drop_first() =~= msgs.drop_first().push(m));
        assert(spec_message_step(pre, mid1, msgs.push(m)[0]));
        assert(spec_applied(mid1, post, msgs.push(m).drop_first()));
    }
}

/// The message kinds the world populator consumes: per-layer results.
pub open spec fn layer_message_filter() -> TagFilter {
    TagFilter { tile_tessellated: false, layer_unavailable: true, layer_tessellated: true }
}

/// Drains per-layer messages from the bus and stores each tessellated layer
/// in the cache under its coordinate.
pub struct PopulateWorldSystem;

impl PopulateWorldSystem {
    pub fn new() -> (r: PopulateWorldSystem)
        ensures
            r == PopulateWorldSystem,
    {
        PopulateWorldSystem
    }

    /// The stable name of this consumer.
    pub fn name(&self) -> (r: &str)
        ensures
            r@ == "populate_world_system"@,
    {
        "populate_world_system"
    }

    /// One consuming tick: takes every queued per-layer message off the bus,
    /// leaving other message kinds queued, and stores each tessellated layer
    /// under its coordinate. The final cache is exactly the fold of those
    /// stores, in arrival order, over the drained messages; every
    /// coordinate already cached stays cached.
    pub fn run(&self, bus: &mut ApcBus, cache: &mut TileCache)
        requires
            old(cache).wf(),
        ensures
            final(cache).wf(),
            final(bus).queue@ == spec_left_queued(old(bus).queue@, layer_message_filter()),
            spec_applied(
                old(cache).entries@,
                final(cache).entries@,
                spec_drained(old(bus).queue@, layer_message_filter()),
            ),
            forall|c: WorldTileCoords|
                old(cache).has_coords(c) ==> final(cache).has_coords(c),
            forall|k: int|
                0 <= k < spec_drained(old(bus).queue@, layer_message_filter()).len()
                    ==> match #[trigger] spec_drained(old(bus).queue@, layer_message_filter())[k] {
                    TessellateMessage::Layer(lm) => spec_holds_layer(final(cache).entries@, lm),
                    TessellateMessage::Tile(_) => true,
                },
    {
        let tags = TagFilter {
            tile_tessellated: false,
            layer_unavailable: true,
            layer_tessellated: true,
        };
        proof {
            assert(tags == layer_message_filter());
        }
        let mut drained = bus.receive(&tags);
        let ghost all = drained@;
        let ghost mut k: int = 0;
        let ghost cache_at_start = *cache;
        while drained.len() > 0
            invariant
                0 <= k <= all.len(),
                drained@ == all.skip(k),
                cache.wf(),
                spec_applied(cache_at_start.entries@, cache.entries@, all.take(k)),
                forall|c: WorldTileCoords|
                    cache_at_start.has_coords(c) ==> cache.has_coords(c),
                forall|j: int|
                    0 <= j < k ==> match #[trigger] all[j] {
                        TessellateMessage::Layer(lm) => spec_holds_layer(cache.entries@, lm),
                        TessellateMessage::Tile(_) => true,
                    },
            decreases drained@.len(),
        {
            let message = drained.remove(0);
            proof {
                assert(all.skip(k)[0] == all[k]);
                assert(message == all[k]);
                assert(drained@ =~= all.skip(k + 1));
            }
            let ghost entries_before = cache.entries@;
            match message {
                TessellateMessage::Layer(layer_message) => {
                    cache.put_tessellated_layer(layer_message);
                },
                TessellateMessage::Tile(_) => {},
            }
            proof {
                assert(spec_message_step(entries_before, cache.entries@, all[k]));
                lemma_applied_snoc(
                    cache_at_start.entries@,
                    entries_before,
                    cache.entries@,
                    all.take(k),
                    all[k],
                );
                assert(all.take(k + 1) =~= all.take(k).push(all[k]));
                k = k + 1;
            }
        }
        proof {
            assert(all.skip(all.len() as int).len() == 0);
            assert(all.take(all.len() as int) =~= all);
        }
    }
}

} // verus!
