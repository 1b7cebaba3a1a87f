//! The tile cache: the keyed store of fetched, parsed and tessellated tile
//! artifacts, and the single source of truth the pipeline consults before
//! issuing new work. An entry only ever moves forward through the tile
//! lifecycle: a later stage's result augments, never regresses, the stored
//! state. Eviction happens only through an explicit policy.

use vstd::prelude::*;
use crate::coords::{ViewRegion, WorldTileCoords};
use crate::layer::Layer;
use crate::request::LayerTessellateMessage;

verus! {

/// How far through the lifecycle a cached tile has come. A tile whose
/// `Parsed` state names missing layers, or whose `Tessellated` state holds
/// unavailability results, is partially available: not an error, it may sit
/// there indefinitely. No stage follows `Unavailable` in a pipeline run,
/// but a later retry's fetch may still advance it.
#[derive(Debug)]
pub enum TileState {
    /// The transport could not provide the tile.
    Unavailable,
    /// Raw bytes have arrived and await parsing.
    Fetched { raw: Vec<u8> },
    /// The container was decoded: the requested layers found, and the
    /// requested layer names that the source does not hold.
    Parsed { available: Vec<Layer>, missing: Vec<String> },
    /// Renderable per-layer results.
    Tessellated { layers: Vec<LayerTessellateMessage> },
}

impl TileState {
    /// Position in the per-tile lifecycle; `put` only ever moves an entry to
    /// a strictly later position.
    pub open spec fn stage_rank(&self) -> int {
        match self {
            TileState::Unavailable => 0,
            TileState::Fetched { .. } => 1,
            TileState::Parsed { .. } => 2,
            TileState::Tessellated { .. } => 3,
        }
    }

    /// Executable form of [`TileState::stage_rank`].
    pub fn rank(&self) -> (r: u8)
        ensures
            r as int == self.stage_rank(),
    {
        match self {
            TileState::Unavailable => 0,
            TileState::Fetched { .. } => 1,
            TileState::Parsed { .. } => 2,
            TileState::Tessellated { .. } => 3,
        }
    }
}

/// Keyed store of per-tile artifacts; one entry per coordinate.
#[derive(Debug)]
pub struct TileCache {
    pub entries: Vec<(WorldTileCoords, TileState)>,
}

/// Whether some entry of `s` is keyed by coordinate `c`.
pub open spec fn seq_has_coords(s: Seq<(WorldTileCoords, TileState)>, c: WorldTileCoords) -> bool {
    exists|i: int| 0 <= i < s.len() && (#[trigger] s[i]).0 == c
}

/// The entries of `s`, in order, whose coordinate the region covers: what
/// eviction by view membership keeps.
pub open spec fn spec_retained(
    s: Seq<(WorldTileCoords, TileState)>,
    region: ViewRegion,
) -> Seq<(WorldTileCoords, TileState)>
    decreases s.len(),
{
    if s.len() == 0 {
        Seq::empty()
    } else if region.spec_is_in_view(s[0].0) {
        seq![s[0]] + spec_retained(s.drop_first(), region)
    } else {
        spec_retained(s.drop_first(), region)
    }
}

impl TileCache {
    /// Whether the cache holds an entry for coordinate `c`.
    pub open spec fn has_coords(&self, c: WorldTileCoords) -> bool {
        seq_has_coords(self.entries@, c)
    }

    /// The position of the entry for `c`; meaningful only when one exists.
    pub open spec fn entry_index(&self, c: WorldTileCoords) -> int {
        choose|i: int| 0 <= i < self.entries@.len() && (#[trigger] self.entries@[i]).0 == c
    }

    /// One entry per coordinate.
    pub open spec fn wf(&self) -> bool {
        forall|i: int, j: int|
            0 <= i < j < self.entries@.len() ==> (#[trigger] self.entries@[i]).0 != (
            #[trigger] self.entries@[j]).0
    }

    pub fn new() -> (r: TileCache)
        ensures
            r.wf(),
            r.entries@.len() == 0,
    {
        TileCache { entries: Vec::new() }
    }

    /// The current known state of a coordinate, or `None` when nothing about
    /// it has been cached yet.
    pub fn get(&self, coords: &WorldTileCoords) -> (r: Option<&TileState>)
        requires
            self.wf(),
        ensures
            r is Some <==> self.has_coords(*coords),
            r matches Some(state) ==> exists|i: int|
                {
                    &&& 0 <= i < self.entries@.len()
                    &&& (#[trigger] self.entries@[i]).0 == *coords
                    &&& self.entries@[i].1 == *state
                },
    {
        let mut i: usize = 0;
        while i < self.entries.len()
            invariant
                i <= self.entries@.len(),
                forall|j: int| 0 <= j < i ==> (#[trigger] self.entries@[j]).0 != *coords,
            decreases self.entries@.len() - i,
        {
            if self.entries[i].0 == *coords {
                return Some(&self.entries[i].1);
            }
            i = i + 1;
        }
        None
    }

    /// Stores a stage result for a coordinate. Monotonic: the result is
    /// accepted exactly when the coordinate is unknown or the new state sits
    /// strictly later in the lifecycle than the stored one; on refusal the
    /// cache is unchanged. Returns whether the result was accepted.
    pub fn put(&mut self, coords: WorldTileCoords, state: TileState) -> (r: bool)
        requires
            old(self).wf(),
        ensures
            final(self).wf(),
            !old(self).has_coords(coords) ==> r,
            !r ==> *final(self) == *old(self),
            r && !old(self).has_coords(coords) ==> final(self).entries@ == old(
                self,
            ).entries@.push((coords, state)),
            r && old(self).has_coords(coords) ==> exists|i: int|
                {
                    &&& 0 <= i < old(self).entries@.len()
                    &&& (#[trigger] old(self).entries@[i]).0 == coords
                    &&& state.stage_rank() > old(self).entries@[i].1.stage_rank()
                    &&& final(self).entries@ == old(self).entries@.update(i, (coords, state))
                },
            old(self).has_coords(coords) ==> (r <==> state.stage_rank() > old(self).entries@[old(
                self,
            ).entry_index(coords)].1.stage_rank()),
    {
        let ghost orig = *self;
        let mut i: usize = 0;
        while i < self.entries.len()
            invariant
                i <= self.entries@.len(),
                *self == orig,
                orig.wf(),
                orig == *old(self),
                forall|j: int| 0 <= j < i ==> (#[trigger] self.entries@[j]).0 != coords,
            decreases self.entries@.len() - i,
        {
            if self.entries[i].0 == coords {
                proof {
                    let idx = orig.entry_index(coords);
                    assert(orig.entries@[i as int].0 == coords);
                    assert(0 <= idx < orig.entries@.len() && orig.entries@[idx].0 == coords);
                    if idx != i as int {
                        assert(false);
                    }
                }
                if state.rank() > self.entries[i].1.rank() {
                    let ghost before = self.entries@;
                    let _ = self.entries.remove(i);
                    self.entries.insert(i, (coords, state));
                    proof {
                        before.remove_ensures(i as int);
                        assert(self.entries@ =~= before.update(i as int, (coords, state)));
                        assert forall|a: int, b: int|
                            0 <= a < b < self.entries@.len() implies (
                        #[trigger] self.entries@[a]).0 != (#[trigger] self.entries@[b]).0 by {
                            assert(before[a].0 != before[b].0);
                        }
                    }
                    return true;
                } else {
                    return false;
                }
            }
            i = i + 1;
        }
        self.entries.push((coords, state));
        proof {
            assert forall|a: int, b: int|
                0 <= a < b < self.entries@.len() implies (#[trigger] self.entries@[a]).0 != (
            #[trigger] self.entries@[b]).0 by {
                if b < self.entries@.len() - 1 {
                    assert(orig.entries@[a].0 != orig.entries@[b].0);
                } else {
                    assert(self.entries@[a] == orig.entries@[a]);
                }
            }
        }
        true
    }

    /// Evicts every entry whose coordinate the region does not cover,
    /// keeping the covered entries in their stored order. This is the
    /// eviction mechanism; which region to keep is the caller's policy.
    pub fn retain_in_view(&mut self, region: &ViewRegion)
        requires
            old(self).wf(),
            region.wf(),
        ensures
            final(self).wf(),
            final(self).entries@ == spec_retained(old(self).entries@, *region),
    {
        let ghost original = self.entries@;
        let mut kept: Vec<(WorldTileCoords, TileState)> = Vec::new();
        let ghost mut i: int = 0;
        while self.entries.len() > 0
            invariant
                0 <= i <= original.len(),
                self.entries@ == original.skip(i),
                region.wf(),
                spec_retained(original, *region) == kept@ + spec_retained(
                    original.skip(i),
                    *region,
                ),
                forall|a: int, b: int|
                    0 <= a < b < original.len() ==> (#[trigger] original[a]).0 != (
                    #[trigger] original[b]).0,
                forall|a: int, b: int|
                    0 <= a < b < kept@.len() ==> (#[trigger] kept@[a]).0 != (
                    #[trigger] kept@[b]).0,
                forall|c: WorldTileCoords|
                    seq_has_coords(kept@, c) ==> seq_has_coords(original.take(i), c),
            decreases self.entries@.len(),
        {
            let ghost rest = original.skip(i);
            let entry = self.entries.remove(0);
            proof {
                assert(rest[0] == original[i]);
                assert(entry == original[i]);
                assert(rest.drop_first() =~= original.skip(i + 1));
                assert(self.entries@ =~= original.skip(i + 1));
            }
            let in_view = region.is_in_view(&entry.0);
            proof {
                if region.spec_is_in_view(entry.0) {
                    assert(spec_retained(rest, *region) == seq![original[i]] + spec_retained(
                        original.skip(i + 1),
                        *region,
                    ));
                    assert(kept@.push(entry) + spec_retained(original.skip(i + 1), *region)
                        =~= kept@ + spec_retained(rest, *region));
                    assert(!seq_has_coords(kept@, entry.0)) by {
                        if seq_has_coords(kept@, entry.0) {
                            let k = choose|k: int|
                                0 <= k < kept@.len() && (#[trigger] kept@[k]).0 == entry.0;
                            assert(seq_has_coords(original.take(i), entry.0));
                            let j = choose|j: int|
                                0 <= j < original.take(i).len() && (#[trigger] original.take(
                                    i,
                                )[j]).0 == entry.0;
                            assert(original[j].0 == original[i].0);
                        }
                    }
                    assert forall|c: WorldTileCoords|
                        seq_has_coords(kept@.push(entry), c) implies seq_has_coords(
                        original.take(i + 1),
                        c,
                    ) by {
                        let k = choose|k: int|
                            0 <= k < kept@.push(entry).len() && (#[trigger] kept@.push(
                                entry,
                            )[k]).0 == c;
                        if k < kept@.len() {
                            assert(seq_has_coords(kept@, c));
                            let j = choose|j: int|
                                0 <= j < original.take(i).len() && (#[trigger] original.take(
                                    i,
                                )[j]).0 == c;
                            assert(original.take(i + 1)[j].0 == c);
                        } else {
                            assert(original.take(i + 1)[i].0 == c);
                        }
                    }
                } else {
                    assert(spec_retained(rest, *region) == spec_retained(
                        original.skip(i + 1),
                        *region,
                    ));
                    assert forall|c: WorldTileCoords|
                        seq_has_coords(kept@, c) implies seq_has_coords(
                        original.take(i + 1),
                        c,
                    ) by {
                        let j = choose|j: int|
                            0 <= j < original.take(i).len() && (#[trigger] original.take(i)[j]).0
                                == c;
                        assert(original.take(i + 1)[j].0 == c);
                    }
                }
            }
            if in_view {
                kept.push(entry);
            }
            proof {
                i = i + 1;
            }
        }
        proof {
            assert(original.skip(original.len() as int)
                =~= Seq::<(WorldTileCoords, TileState)>::empty());
            assert(kept@ + Seq::<(WorldTileCoords, TileState)>::empty() =~= kept@);
        }
        self.entries = kept;
    }
}

/// The layers stored for a tessellated entry; empty for any other state.
pub open spec fn tessellated_layers(s: TileState) -> Seq<LayerTessellateMessage> {
    match s {
        TileState::Tessellated { layers } => layers@,
        _ => Seq::empty(),
    }
}

/// Whether the cache stores `m` among the tessellated layers of its
/// coordinate.
pub open spec fn spec_holds_layer(
    entries: Seq<(WorldTileCoords, TileState)>,
    m: LayerTessellateMessage,
) -> bool {
    exists|i: int|
        0 <= i < entries.len() && (#[trigger] entries[i]).0 == m.spec_coords()
            && tessellated_layers(entries[i].1).contains(m)
}

/// Whether a state is the tessellated stage holding exactly `layers`.
pub open spec fn spec_is_tessellated_with(
    s: TileState,
    layers: Seq<LayerTessellateMessage>,
) -> bool {
    &&& s matches TileState::Tessellated { layers: held }
    &&& held@ == layers
}

impl TileCache {
    /// Stores one tessellated-layer result for its coordinate: appended to
    /// an existing tessellated entry, otherwise stored as the coordinate's
    /// tessellated state — an unknown coordinate gains an entry, an
    /// earlier-stage entry is advanced. Augments, never regresses.
    pub fn put_tessellated_layer(&mut self, message: LayerTessellateMessage)
        requires
            old(self).wf(),
        ensures
            final(self).wf(),
            final(self).has_coords(message.spec_coords()),
            forall|c: WorldTileCoords|
                old(self).has_coords(c) ==> final(self).has_coords(c),
            !old(self).has_coords(message.spec_coords()) ==> {
                &&& final(self).entries@.len() == old(self).entries@.len() + 1
                &&& final(self).entries@.take(old(self).entries@.len() as int) == old(
                    self,
                ).entries@
                &&& final(self).entries@.last().0 == message.spec_coords()
                &&& spec_is_tessellated_with(final(self).entries@.last().1, seq![message])
            },
            old(self).has_coords(message.spec_coords()) ==> exists|i: int|
                {
                    &&& 0 <= i < old(self).entries@.len()
                    &&& (#[trigger] old(self).entries@[i]).0 == message.spec_coords()
                    &&& final(self).entries@.len() == old(self).entries@.len()
                    &&& forall|j: int|
                        0 <= j < old(self).entries@.len() && j != i ==> final(self).entries@[j]
                            == old(self).entries@[j]
                    &&& final(self).entries@[i].0 == message.spec_coords()
                    &&& spec_is_tessellated_with(
                        final(self).entries@[i].1,
                        tessellated_layers(old(self).entries@[i].1).push(message),
                    )
                },
            spec_holds_layer(final(self).entries@, message),
            forall|m2: LayerTessellateMessage|
                spec_holds_layer(old(self).entries@, m2) ==> spec_holds_layer(
                    final(self).entries@,
                    m2,
                ),
    {
        let coords = message.get_coords();
        let ghost orig = *self;
        let mut i: usize = 0;
        while i < self.entries.len()
            invariant
                i <= self.entries@.len(),
                *self == orig,
                orig.wf(),
                orig == *old(self),
                coords == message.spec_coords(),
                forall|j: int| 0 <= j < i ==> (#[trigger] self.entries@[j]).0 != coords,
            decreases self.entries@.len() - i,
        {
            if self.entries[i].0 == coords {
                let ghost before = self.entries@;
                let (c0, state) = self.entries.remove(i);
                let new_state = match state {
                    TileState::Tessellated { layers } => {
                        let mut layers = layers;
                        layers.push(message);
                        proof {
                            assert(layers@ == tessellated_layers(before[i as int].1).push(
                                message,
                            ));
                        }
                        TileState::Tessellated { layers }
                    },
                    _ => {
                        let mut layers: Vec<LayerTessellateMessage> = Vec::new();
                        layers.push(message);
                        proof {
                            assert(layers@ =~= tessellated_layers(before[i as int].1).push(
                                message,
                            ));
                        }
                        TileState::Tessellated { layers }
                    },
                };
                self.entries.insert(i, (c0, new_state));
                proof {
                    before.remove_ensures(i as int);
                    assert(self.entries@ =~= before.update(i as int, (c0, new_state)));
                    assert forall|a: int, b: int|
                        0 <= a < b < self.entries@.len() implies (
                    #[trigger] self.entries@[a]).0 != (#[trigger] self.entries@[b]).0 by {
                        assert(before[a].0 != before[b].0);
                    }
                    assert(self.entries@[i as int].0 == coords);
                    assert forall|c: WorldTileCoords|
                        orig.has_coords(c) implies self.has_coords(c) by {
                        let k = choose|k: int|
                            0 <= k < before.len() && (#[trigger] before[k]).0 == c;
                        assert(self.entries@[k].0 == c);
                    }
                    assert(tessellated_layers(self.entries@[i as int].1).last() == message);
                    assert(spec_holds_layer(self.entries@, message));
                    assert forall|m2: LayerTessellateMessage|
                        spec_holds_layer(before, m2) implies spec_holds_layer(
                        self.entries@,
                        m2,
                    ) by {
                        let k = choose|k: int|
                            0 <= k < before.len() && (#[trigger] before[k]).0 == m2.spec_coords()
                                && tessellated_layers(before[k].1).contains(m2);
                        if k == i as int {
                            assert(before[k].0 == coords);
                            let pos = choose|pos: int|
                                0 <= pos < tessellated_layers(before[k].1).len()
                                    && tessellated_layers(before[k].1)[pos] == m2;
                            assert(tessellated_layers(self.entries@[k].1)[pos] == m2);
                            assert(tessellated_layers(self.entries@[k].1).contains(m2));
                        } else {
                            assert(self.entries@[k] == before[k]);
                        }
                    }
                }
                return ;
            }
            i = i + 1;
        }
        let ghost before = self.entries@;
        let mut layers: Vec<LayerTessellateMessage> = Vec::new();
        layers.push(message);
        self.entries.push((coords, TileState::Tessellated { layers }));
        proof {
            assert(self.entries@.take(before.len() as int) =~= before);
            assert(layers@ =~= seq![message]);
            assert(self.entries@[before.len() as int].0 == coords);
            assert forall|a: int, b: int|
                0 <= a < b < self.entries@.len() implies (#[trigger] self.entries@[a]).0 != (
            #[trigger] self.entries@[b]).0 by {
                if b < self.entries@.len() - 1 {
                    assert(orig.entries@[a].0 != orig.entries@[b].0);
                } else {
                    assert(self.entries@[a] == orig.entries@[a]);
                }
            }
            assert forall|c: WorldTileCoords| orig.has_coords(c) implies self.has_coords(c) by {
                let k = choose|k: int|
                    0 <= k < before.len() && (#[trigger] before[k]).0 == c;
                assert(self.entries@[k].0 == c);
            }
            assert(tessellated_layers(self.entries@[before.len() as int].1).last() == message);
            assert(spec_holds_layer(self.entries@, message));
            assert forall|m2: LayerTessellateMessage|
                spec_holds_layer(before, m2) implies spec_holds_layer(self.entries@, m2) by {
                let k = choose|k: int|
                    0 <= k < before.len() && (#[trigger] before[k]).0 == m2.spec_coords()
                        && tessellated_layers(before[k].1).contains(m2);
                assert(self.entries@[k] == before[k]);
            }
        }
    }
}

/// The entries of `s` kept by the per-entry decisions `keep`, in order.
pub open spec fn spec_kept_by(
    s: Seq<(WorldTileCoords, TileState)>,
    keep: Seq<bool>,
) -> Seq<(WorldTileCoords, TileState)>
    decreases s.len(),
{
    if s.len() == 0 || keep.len() == 0 {
        Seq::empty()
    } else if keep[0] {
        seq![s[0]] + spec_kept_by(s.drop_first(), keep.drop_first())
    } else {
        spec_kept_by(s.drop_first(), keep.drop_first())
    }
}

impl TileCache {
    /// Evicts by an injected policy: every entry is shown to the policy
    /// once, in stored order, and exactly those it accepted stay. Which
    /// policy to inject is a deployment concern, not decided here.
    pub fn retain<F: Fn(&WorldTileCoords, &TileState) -> bool>(&mut self, policy: F)
        requires
            old(self).wf(),
            forall|c: &WorldTileCoords, s: &TileState| #[trigger] call_requires(policy, (c, s)),
        ensures
            final(self).wf(),
            exists|keep: Seq<bool>|
                {
                    &&& keep.len() == old(self).entries@.len()
                    &&& forall|i: int|
                        0 <= i < keep.len() ==> call_ensures(
                            policy,
                            (&old(self).entries@[i].0, &old(self).entries@[i].1),
                            #[trigger] keep[i],
                        )
                    &&& final(self).entries@ == spec_kept_by(old(self).entries@, keep)
                },
    {
        let ghost original = self.entries@;
        let mut kept: Vec<(WorldTileCoords, TileState)> = Vec::new();
        let ghost mut decisions: Seq<bool> = Seq::empty();
        let ghost mut i: int = 0;
        while self.entries.len() > 0
            invariant
                0 <= i <= original.len(),
                self.entries@ == original.skip(i),
                decisions.len() == i,
                forall|c: &WorldTileCoords, s: &TileState| #[trigger] call_requires(
                    policy,
                    (c, s),
                ),
                forall|j: int|
                    0 <= j < i ==> call_ensures(
                        policy,
                        (&original[j].0, &original[j].1),
                        #[trigger] decisions[j],
                    ),
                kept@ == spec_kept_by(original.take(i), decisions),
                forall|a: int, b: int|
                    0 <= a < b < original.len() ==> (#[trigger] original[a]).0 != (
                    #[trigger] original[b]).0,
                forall|a: int, b: int|
                    0 <= a < b < kept@.len() ==> (#[trigger] kept@[a]).0 != (
                    #[trigger] kept@[b]).0,
                forall|c: WorldTileCoords|
                    seq_has_coords(kept@, c) ==> seq_has_coords(original.take(i), c),
            decreases self.entries@.len(),
        {
            let ghost rest = original.skip(i);
            let entry = self.entries.remove(0);
            proof {
                assert(rest[0] == original[i]);
                assert(entry == original[i]);
                assert(self.entries@ =~= original.skip(i + 1));
            }
            let keep_entry = policy(&entry.0, &entry.1);
            proof {
                lemma_kept_by_step(original, decisions, i, keep_entry);
                if keep_entry {
                    assert(!seq_has_coords(kept@, entry.0)) by {
                        if seq_has_coords(kept@, entry.0) {
                            let j = choose|j: int|
                                0 <= j < original.take(i).len() && (#[trigger] original.take(
                                    i,
                                )[j]).0 == entry.0;
                            assert(original[j].0 == original[i].0);
                        }
                    }
                }
                if keep_entry {
                    assert forall|c: WorldTileCoords|
                        seq_has_coords(kept@.push(entry), c) implies seq_has_coords(
                        original.take(i + 1),
                        c,
                    ) by {
                        let j = choose|j: int|
                            0 <= j < kept@.push(entry).len() && (#[trigger] kept@.push(entry)[j]).0
                                == c;
                        if j < kept@.len() {
                            assert(seq_has_coords(kept@, c));
                            let q = choose|q: int|
                                0 <= q < original.take(i).len() && (#[trigger] original.take(
                                    i,
                                )[q]).0 == c;
                            assert(original.take(i + 1)[q].0 == c);
                        } else {
                            assert(original.take(i + 1)[i].0 == c);
                        }
                    }
                } else {
                    assert forall|c: WorldTileCoords|
                        seq_has_coords(kept@, c) implies seq_has_coords(
                        original.take(i + 1),
                        c,
                    ) by {
                        let q = choose|q: int|
                            0 <= q < original.take(i).len() && (#[trigger] original.take(i)[q]).0
                                == c;
                        assert(original.take(i + 1)[q].0 == c);
                    }
                }
            }
            if keep_entry {
                kept.push(entry);
            }
            proof {
                decisions = decisions.push(keep_entry);
                i = i + 1;
            }
        }
        proof {
            assert(original.take(original.len() as int) =~= original);
        }
        self.entries = kept;
    }
}

/// One step of keeping by decisions: deciding entry `i` extends the kept
/// run by that entry exactly when the decision is to keep it.
proof fn lemma_kept_by_step(
    s: Seq<(WorldTileCoords, TileState)>,
    decisions: Seq<bool>,
    i: int,
    d: bool,
)
    requires
        decisions.len() == i,
        0 <= i < s.len(),
    ensures
        spec_kept_by(s.take(i + 1), decisions.push(d)) == if d {
            spec_kept_by(s.take(i), decisions).push(s[i])
        } else {
            spec_kept_by(s.take(i), decisions)
        },
    decreases i,
{
    if i == 0 {
        let t1 = s.take(1);
        let dd = decisions.push(d);
        assert(t1.len() == 1 && dd.len() == 1);
        assert(t1[0] == s[0]);
        assert(dd[0] == d);
        assert(spec_kept_by(t1.drop_first(), dd.drop_first())
            =~= Seq::<(WorldTileCoords, TileState)>::empty());
        assert(spec_kept_by(s.take(0), decisions)
            =~= Seq::<(WorldTileCoords, TileState)>::empty());
        if d {
            assert(spec_kept_by(t1, dd) == seq![s[0]] + spec_kept_by(
                t1.drop_first(),
                dd.drop_first(),
            ));
            assert(spec_kept_by(t1, dd) =~= spec_kept_by(s.take(0), decisions).push(s[0]));
        } else {
            assert(spec_kept_by(t1, dd) == spec_kept_by(t1.drop_first(), dd.drop_first()));
            assert(spec_kept_by(t1, dd) =~= spec_kept_by(s.take(0), decisions));
        }
    } else {
        lemma_kept_by_step(s.drop_first(), decisions.drop_first(), i - 1, d);
        assert(s.take(i + 1).drop_first() =~= s.drop_first().take(i));
        assert(s.take(i).drop_first() =~= s.drop_first().take(i - 1));
        assert(decisions.push(d).drop_first() =~= decisions.drop_first().push(d));
        assert(s.take(i + 1)[0] == s[0] && s.take(i)[0] == s[0]);
        assert(s.drop_first()[i - 1] == s[i]);
        if decisions[0] {
            assert(spec_kept_by(s.take(i + 1), decisions.push(d)) == seq![s[0]] + spec_kept_by(
                s.drop_first().take(i),
                decisions.drop_first().push(d),
            ));
            assert(spec_kept_by(s.take(i), decisions) == seq![s[0]] + spec_kept_by(
                s.drop_first().take(i - 1),
                decisions.drop_first(),
            ));
            if d {
                assert(seq![s[0]] + spec_kept_by(s.drop_first().take(i - 1), decisions.drop_first()).push(s[i])
                    =~= (seq![s[0]] + spec_kept_by(s.drop_first().take(i - 1), decisions.drop_first())).push(s[i]));
            }
        } else {
            assert(spec_kept_by(s.take(i + 1), decisions.push(d)) == spec_kept_by(
                s.drop_first().take(i),
                decisions.drop_first().push(d),
            ));
        }
    }
}

} // verus!
