//! A small built-in example: request the block of tiles around Munich.

use vstd::prelude::*;
use crate::coords::{WorldTileCoords, ZoomLevel};
use crate::request::{TileRequest, TileRequestID, TileRequestState};

verus! {

/// Column of the upper-left Munich tile.
pub const MUNICH_X: u32 = 17421;

/// Row of the upper-left Munich tile.
pub const MUNICH_Y: u32 = 11360;

/// Zoom level of the Munich tiles.
pub const MUNICH_Z: u8 = 15;

/// The Munich tile `dx` columns right and `dy` rows below the upper-left
/// one.
pub open spec fn munich_tile(dx: int, dy: int) -> WorldTileCoords {
    WorldTileCoords {
        x: (MUNICH_X + dx) as i32,
        y: (MUNICH_Y + dy) as i32,
        z: ZoomLevel(MUNICH_Z),
    }
}

/// Whether `c` is one of the 5 by 5 block of Munich tiles.
pub open spec fn in_munich_block(c: WorldTileCoords) -> bool {
    exists|dx: int, dy: int| 0 <= dx < 5 && 0 <= dy < 5 && c == munich_tile(dx, dy)
}

/// Requests the 5 by 5 block of tiles around Munich and nothing else: after
/// the call a request for every tile of the block is in flight, requests
/// already in flight are kept unchanged, and each newly admitted request is
/// for one block coordinate, with no layer names, at most once per
/// coordinate — on a fresh state, exactly one request per block tile.
pub fn fetch_munich_tiles(state: &mut TileRequestState)
    requires
        old(state).wf(),
        old(state).current_id <= u32::MAX - 25,
    ensures
        final(state).wf(),
        final(state).pending_requests@.len() >= old(state).pending_requests@.len(),
        final(state).pending_requests@.take(old(state).pending_requests@.len() as int) == old(
            state,
        ).pending_requests@,
        forall|dx: int, dy: int|
            0 <= dx < 5 && 0 <= dy < 5 ==> final(state).has_pending_coords(
                #[trigger] munich_tile(dx, dy),
            ),
        forall|i: int|
            old(state).pending_requests@.len() <= i < final(state).pending_requests@.len()
                ==> in_munich_block((#[trigger] final(state).pending_requests@[i]).1.coords)
                && final(state).pending_requests@[i].1.layers@.len() == 0,
        forall|i: int, j: int|
            old(state).pending_requests@.len() <= i < j < final(state).pending_requests@.len()
                ==> (#[trigger] final(state).pending_requests@[i]).1.coords != (
            #[trigger] final(state).pending_requests@[j]).1.coords,
{
    let ghost orig = *state;
    let ghost orig_len = state.pending_requests@.len() as int;
    let mut x: u32 = 0;
    while x < 5
        invariant
            x <= 5,
            state.wf(),
            orig.wf(),
            orig == *old(state),
            orig_len == orig.pending_requests@.len(),
            orig.current_id <= u32::MAX - 25,
            state.current_id <= orig.current_id + 5 * x,
            state.pending_requests@.len() >= orig_len,
            state.pending_requests@.take(orig_len) == orig.pending_requests@,
            forall|dx: int, dy: int|
                0 <= dx < x && 0 <= dy < 5 ==> state.has_pending_coords(
                    #[trigger] munich_tile(dx, dy),
                ),
            forall|i: int|
                orig_len <= i < state.pending_requests@.len() ==> in_munich_block(
                    (#[trigger] state.pending_requests@[i]).1.coords,
                ) && state.pending_requests@[i].1.layers@.len() == 0,
            forall|i: int, j: int|
                orig_len <= i < j < state.pending_requests@.len() ==> (
                #[trigger] state.pending_requests@[i]).1.coords != (
                #[trigger] state.pending_requests@[j]).1.coords,
        decreases 5 - x,
    {
        let mut y: u32 = 0;
        while y < 5
            invariant
                x < 5,
                y <= 5,
                state.wf(),
                orig.wf(),
                orig == *old(state),
                orig_len == orig.pending_requests@.len(),
                orig.current_id <= u32::MAX - 25,
                state.current_id <= orig.current_id + 5 * x + y,
                state.pending_requests@.len() >= orig_len,
                state.pending_requests@.take(orig_len) == orig.pending_requests@,
                forall|dx: int, dy: int|
                    0 <= dx < x && 0 <= dy < 5 ==> state.has_pending_coords(
                        #[trigger] munich_tile(dx, dy),
                    ),
                forall|dy: int|
                    0 <= dy < y ==> state.has_pending_coords(#[trigger] munich_tile(x as int, dy)),
                forall|i: int|
                    orig_len <= i < state.pending_requests@.len() ==> in_munich_block(
                        (#[trigger] state.pending_requests@[i]).1.coords,
                    ) && state.pending_requests@[i].1.layers@.len() == 0,
                forall|i: int, j: int|
                    orig_len <= i < j < state.pending_requests@.len() ==> (
                    #[trigger] state.pending_requests@[i]).1.coords != (
                    #[trigger] state.pending_requests@[j]).1.coords,
            decreases 5 - y,
        {
            let ghost before = *state;
            let coords = WorldTileCoords {
                x: (MUNICH_X + x) as i32,
                y: (MUNICH_Y + y) as i32,
                z: ZoomLevel(MUNICH_Z),
            };
            let empty_layers: Vec<String> = Vec::new();
            let ghost ev = empty_layers@;
            let request = TileRequest::new(coords, empty_layers);
            proof {
                assert(ev.map_values(|s: String| s@) =~= Seq::<Seq<char>>::empty());
                assert(crate::request::spec_unique_names(Seq::<Seq<char>>::empty())
                    == Seq::<Seq<char>>::empty());
                assert(request.layer_names().len() == 0);
                assert(request.layers@.len() == 0);
            }
            let admitted = state.start_tile_request(request);
            proof {
                assert(coords == munich_tile(x as int, y as int));
                let n = before.pending_requests@.len() as int;
                if admitted is Some {
                    assert(state.pending_requests@[n].1.coords == coords);
                    assert(state.has_pending_coords(coords));
                    assert(state.pending_requests@.take(orig_len) =~= before.pending_requests@.take(
                        orig_len,
                    ));
                    assert(in_munich_block(coords)) by {
                        assert(coords == munich_tile(x as int, y as int) && 0 <= x < 5 && 0 <= y
                            < 5);
                    }
                    assert(!before.has_pending_coords(coords));
                    assert forall|i: int|
                        orig_len <= i < n implies (#[trigger] state.pending_requests@[i]).1.coords
                        != coords by {
                        if state.pending_requests@[i].1.coords == coords {
                            assert(before.pending_requests@[i].1.coords == coords);
                            assert(before.has_pending_coords(coords));
                        }
                    }
                } else {
                    assert(before.has_pending_coords(coords));
                    assert(state.has_pending_coords(coords));
                }
                assert forall|dx: int, dy: int|
                    0 <= dx < x && 0 <= dy < 5 && before.has_pending_coords(
                        munich_tile(dx, dy),
                    ) implies state.has_pending_coords(#[trigger] munich_tile(dx, dy)) by {
                    lemma_pending_preserved(before, *state, munich_tile(dx, dy));
                }
                assert forall|dy: int|
                    0 <= dy < y && before.has_pending_coords(
                        munich_tile(x as int, dy),
                    ) implies state.has_pending_coords(#[trigger] munich_tile(x as int, dy)) by {
                    lemma_pending_preserved(before, *state, munich_tile(x as int, dy));
                }
            }
            y = y + 1;
        }
        x = x + 1;
    }
}

/// Admitting one request never drops another coordinate from the in-flight
/// set.
proof fn lemma_pending_preserved(
    before: TileRequestState,
    after: TileRequestState,
    c: WorldTileCoords,
)
    requires
        before.has_pending_coords(c),
        after.pending_requests@ == before.pending_requests@ || exists|id: TileRequestID, req:
            TileRequest|
            after.pending_requests@ == before.pending_requests@.push((id, req)),
    ensures
        after.has_pending_coords(c),
{
    let i = choose|i: int|
        0 <= i < before.pending_requests@.len() && (#[trigger] before.pending_requests@[i]).1.coords
            == c;
    assert(after.pending_requests@[i].1.coords == c);
}

} // verus!
