//! Glyph ranges and their hashing, used to key glyph atlas work.

use vstd::prelude::*;

verus! {

/// A half-open range of glyph code points.
pub type GlyphRange = core::ops::Range<u16>;

/// The offset basis of the 64-bit FNV-1a hash.
pub const FNV_BASIS: u64 = 0xcbf2_9ce4_8422_2325;

/// The prime of the 64-bit FNV-1a hash.
pub const FNV_PRIME: u64 = 0x0000_0100_0000_01b3;

/// One FNV-1a step: fold one byte into the running hash.
pub open spec fn spec_fnv_step(h: u64, byte: u64) -> u64 {
    (((h ^ byte) * FNV_PRIME) % 0x1_0000_0000_0000_0000) as u64
}

/// The 64-bit FNV-1a hash of a run of 16-bit values, each folded in as its
/// low byte then its high byte.
pub open spec fn spec_hash_u16s(values: Seq<u16>) -> u64
    decreases values.len(),
{
    if values.len() == 0 {
        FNV_BASIS
    } else {
        let h = spec_hash_u16s(values.drop_last());
        let v = values.last();
        spec_fnv_step(spec_fnv_step(h, (v % 256) as u64), (v / 256) as u64)
    }
}

/// One FNV-1a step, executable form.
fn fnv_step(h: u64, byte: u8) -> (r: u64)
    ensures
        r == spec_fnv_step(h, byte as u64),
{
    let folded = h ^ (byte as u64);
    let wide = (folded as u128) * (FNV_PRIME as u128);
    (wide % 0x1_0000_0000_0000_0000u128) as u64
}

/// The 64-bit FNV-1a hash of a run of 16-bit values.
pub fn hash_u16s(values: &[u16]) -> (r: u64)
    ensures
        r == spec_hash_u16s(values@),
{
    let mut h: u64 = FNV_BASIS;
    let mut i: usize = 0;
    while i < values.len()
        invariant
            i <= values@.len(),
            h == spec_hash_u16s(values@.take(i as int)),
        decreases values@.len() - i,
    {
        let v = values[i];
        proof {
            assert(values@.take(i + 1).drop_last() =~= values@.take(i as int));
            assert(values@.take(i + 1).last() == values@[i as int]);
        }
        h = fnv_step(h, (v % 256) as u8);
        h = fnv_step(h, (v / 256) as u8);
        i = i + 1;
    }
    proof {
        assert(values@.take(values@.len() as int) =~= values@);
    }
    h
}

/// The hash under which a glyph range is keyed: the FNV-1a hash of its
/// bounds.
pub fn hash_glyphrange(range: &GlyphRange) -> (r: u64)
    ensures
        r == spec_hash_u16s(seq![range.start, range.end]),
{
    let pair: [u16; 2] = [range.start, range.end];
    proof {
        assert(pair@ =~= seq![range.start, range.end]);
    }
    hash_u16s(pair.as_slice())
}

} // verus!
