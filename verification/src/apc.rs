//! The asynchronous procedure call bus: a typed message channel through
//! which completed background work is delivered back to the consuming
//! context. Each message carries a stable tag per variant, so a consumer can
//! selectively drain only the message kinds it currently cares about and
//! leave the rest queued.

use vstd::prelude::*;
use crate::request::{LayerTessellateMessage, TessellateMessage};

verus! {

/// The stable identifier of a message variant.
#[derive(Clone, Copy, Debug, PartialEq, Eq, Structural)]
pub enum MessageTag {
    /// Every stage of one tile request has completed.
    TileTessellated,
    /// One requested layer was missing or malformed.
    LayerUnavailable,
    /// One requested layer was tessellated into renderable buffers.
    LayerTessellated,
}

/// The tag of a message, determined by its variant alone.
pub open spec fn spec_tag_of(m: TessellateMessage) -> MessageTag {
    match m {
        TessellateMessage::Tile(_) => MessageTag::TileTessellated,
        TessellateMessage::Layer(LayerTessellateMessage::UnavailableLayer { .. }) =>
            MessageTag::LayerUnavailable,
        TessellateMessage::Layer(LayerTessellateMessage::TessellatedLayer { .. }) =>
            MessageTag::LayerTessellated,
    }
}

/// The tag of a message, determined by its variant alone.
pub fn tag_of(m: &TessellateMessage) -> (r: MessageTag)
    ensures
        r == spec_tag_of(*m),
{
    match m {
        TessellateMessage::Tile(_) => MessageTag::TileTessellated,
        TessellateMessage::Layer(LayerTessellateMessage::UnavailableLayer { .. }) =>
            MessageTag::LayerUnavailable,
        TessellateMessage::Layer(LayerTessellateMessage::TessellatedLayer { .. }) =>
            MessageTag::LayerTessellated,
    }
}

/// A closed selection of message tags, the consumer-side predicate of a
/// drain: each field says whether messages of that tag are taken.
#[derive(Clone, Copy, Debug, PartialEq, Eq, Structural)]
pub struct TagFilter {
    pub tile_tessellated: bool,
    pub layer_unavailable: bool,
    pub layer_tessellated: bool,
}

impl TagFilter {
    /// Whether a message's tag is selected.
    pub open spec fn spec_matches(&self, m: TessellateMessage) -> bool {
        match spec_tag_of(m) {
            MessageTag::TileTessellated => self.tile_tessellated,
            MessageTag::LayerUnavailable => self.layer_unavailable,
            MessageTag::LayerTessellated => self.layer_tessellated,
        }
    }

    /// A filter selecting every tag.
    pub fn all() -> (r: TagFilter)
        ensures
            r.tile_tessellated && r.layer_unavailable && r.layer_tessellated,
    {
        TagFilter { tile_tessellated: true, layer_unavailable: true, layer_tessellated: true }
    }

    /// Whether a message's tag is selected.
    pub fn matches(&self, m: &TessellateMessage) -> (r: bool)
        ensures
            r == self.spec_matches(*m),
    {
        match tag_of(m) {
            MessageTag::TileTessellated => self.tile_tessellated,
            MessageTag::LayerUnavailable => self.layer_unavailable,
            MessageTag::LayerTessellated => self.layer_tessellated,
        }
    }
}

/// The message bus. Producers append completed results with [`ApcBus::send`]
/// from any context; the consuming context drains selected message kinds
/// with [`ApcBus::receive`], which leaves unselected messages queued in
/// their order of arrival.
#[derive(Debug)]
pub struct ApcBus {
    pub queue: Vec<TessellateMessage>,
}

impl ApcBus {
    pub fn new() -> (r: ApcBus)
        ensures
            r.queue@.len() == 0,
    {
        ApcBus { queue: Vec::new() }
    }

    /// Appends a completed result to the bus.
    pub fn send(&mut self, message: TessellateMessage)
        ensures
            final(self).queue@ == old(self).queue@.push(message),
    {
        self.queue.push(message);
    }

    /// Drains, in arrival order, exactly the queued messages whose tag the
    /// filter selects, leaving the rest queued in their original order.
    /// Non-blocking: an empty result only means nothing matched.
    pub fn receive(&mut self, tags: &TagFilter) -> (r: Vec<TessellateMessage>)
        ensures
            r@ == spec_drained(old(self).queue@, *tags),
            final(self).queue@ == spec_left_queued(old(self).queue@, *tags),
    {
        let ghost original = self.queue@;
        let mut drained: Vec<TessellateMessage> = Vec::new();
        let mut kept: Vec<TessellateMessage> = Vec::new();
        let ghost mut i: int = 0;
        while self.queue.len() > 0
            invariant
                0 <= i <= original.len(),
                self.queue@ == original.skip(i),
                spec_drained(original, *tags) == drained@ + spec_drained(
                    original.skip(i),
                    *tags,
                ),
                spec_left_queued(original, *tags) == kept@ + spec_left_queued(
                    original.skip(i),
                    *tags,
                ),
            decreases self.queue@.len(),
        {
            let ghost rest = original.skip(i);
            let m = self.queue.remove(0);
            proof {
                assert(rest[0] == original[i]);
                assert(m == original[i]);
                assert(rest.drop_first() =~= original.skip(i + 1));
                assert(self.queue@ =~= original.skip(i + 1));
                if tags.spec_matches(m) {
                    assert(spec_drained(rest, *tags) == seq![m] + spec_drained(
                        original.skip(i + 1),
                        *tags,
                    ));
                    assert(drained@.push(m) + spec_drained(original.skip(i + 1), *tags)
                        =~= drained@ + spec_drained(rest, *tags));
                } else {
                    assert(spec_left_queued(rest, *tags) == seq![m] + spec_left_queued(
                        original.skip(i + 1),
                        *tags,
                    ));
                    assert(kept@.push(m) + spec_left_queued(original.skip(i + 1), *tags)
                        =~= kept@ + spec_left_queued(rest, *tags));
                }
            }
            if tags.matches(&m) {
                drained.push(m);
            } else {
                kept.push(m);
            }
            proof {
                i = i + 1;
            }
        }
        proof {
            assert(original.skip(original.len() as int) =~= Seq::<TessellateMessage>::empty());
            assert(drained@ + Seq::<TessellateMessage>::empty() =~= drained@);
            assert(kept@ + Seq::<TessellateMessage>::empty() =~= kept@);
        }
        self.queue = kept;
        drained
    }
}

/// The messages of `q`, in order, whose tag `tags` selects: what a drain
/// returns.
pub open spec fn spec_drained(q: Seq<TessellateMessage>, tags: TagFilter) -> Seq<
    TessellateMessage,
>
    decreases q.len(),
{
    if q.len() == 0 {
        Seq::empty()
    } else if tags.spec_matches(q[0]) {
        seq![q[0]] + spec_drained(q.drop_first(), tags)
    } else {
        spec_drained(q.drop_first(), tags)
    }
}

/// The messages of `q`, in order, whose tag `tags` does not select: what a
/// drain leaves queued.
pub open spec fn spec_left_queued(q: Seq<TessellateMessage>, tags: TagFilter) -> Seq<
    TessellateMessage,
>
    decreases q.len(),
{
    if q.len() == 0 {
        Seq::empty()
    } else if !tags.spec_matches(q[0]) {
        seq![q[0]] + spec_left_queued(q.drop_first(), tags)
    } else {
        spec_left_queued(q.drop_first(), tags)
    }
}

} // verus!
