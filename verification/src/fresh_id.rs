//! The bits of a fresh identifier for an element that has none: a
//! per-session counter value mixed with a session seed.

use vstd::prelude::*;

verus! {

/// The odd multiplier that spreads consecutive counter values.
pub const MIX_MULTIPLIER: u64 = 0x517cc1b727220a95;

/// Counter value `n` mixed with the session seed.
pub open spec fn mix(n: u64, seed: u64) -> u64 {
    n.wrapping_mul(MIX_MULTIPLIER) ^ seed
}

/// 32 bits of `mix(n, seed)`, from bit 16 up.
pub fn rand_u32(n: u64, seed: u64) -> (r: u32)
    ensures
        r == ((mix(n, seed) >> 16u64) as u32),
{
    let mixed = n.wrapping_mul(MIX_MULTIPLIER) ^ seed;
    (mixed >> 16u64) as u32
}

/// 16 bits of `mix(n, seed)`, from bit 32 up.
pub fn rand_u16(n: u64, seed: u64) -> (r: u16)
    ensures
        r == ((mix(n, seed) >> 32u64) as u16),
{
    let mixed = n.wrapping_mul(MIX_MULTIPLIER) ^ seed;
    (mixed >> 32u64) as u16
}

/// The low 48 bits of `mix(n, seed)`.
pub fn rand_u48(n: u64, seed: u64) -> (r: u64)
    ensures
        r == (mix(n, seed) & 0xFFFF_FFFF_FFFFu64),
        r < 0x1_0000_0000_0000,
{
    let mixed = n.wrapping_mul(MIX_MULTIPLIER) ^ seed;
    let r = mixed & 0xFFFF_FFFF_FFFFu64;
    assert(mixed & 0xFFFF_FFFF_FFFFu64 < 0x1_0000_0000_0000) by (bit_vector);
    r
}


/// The source of fresh UUIDs for one session: the next counter value and
/// the session seed.
#[derive(Debug, Clone, Copy, PartialEq, Eq, Structural)]
pub struct FreshUuids {
    pub counter: u64,
    pub seed: u64,
}

/// The UUID drawn at counter value `n`: 32, 16, 16 and 16 mixed bits and
/// the low 48 bits of five consecutive counter values, most significant
/// first.
pub open spec fn fresh_uuid_value(n: u64, seed: u64) -> u128 {
    let a = (mix(n, seed) >> 16u64) as u32;
    let b = (mix(n.wrapping_add(1), seed) >> 32u64) as u16;
    let c = (mix(n.wrapping_add(2), seed) >> 32u64) as u16;
    let d = (mix(n.wrapping_add(3), seed) >> 32u64) as u16;
    let e = mix(n.wrapping_add(4), seed) & 0xFFFF_FFFF_FFFFu64;
    (a as int * 0x1_0000_0000_0000_0000_0000_0000 + b as int * 0x1_0000_0000_0000_0000_0000 + c as int
        * 0x1_0000_0000_0000_0000 + d as int * 0x1_0000_0000_0000 + e as int) as u128
}

impl FreshUuids {
    /// A session that starts counting at `counter`.
    pub fn new(counter: u64, seed: u64) -> (r: FreshUuids)
        ensures
            r.counter == counter && r.seed == seed,
    {
        FreshUuids { counter, seed }
    }

    /// Draws the next UUID; it takes five counter values.
    pub fn next_uuid(&mut self) -> (u: u128)
        ensures
            u == fresh_uuid_value(old(self).counter, old(self).seed),
            final(self).counter == old(self).counter.wrapping_add(5),
            final(self).seed == old(self).seed,
    {
        let n = self.counter;
        let seed = self.seed;
        let a = rand_u32(n, seed);
        let b = rand_u16(n.wrapping_add(1), seed);
        let c = rand_u16(n.wrapping_add(2), seed);
        let d = rand_u16(n.wrapping_add(3), seed);
        let e = rand_u48(n.wrapping_add(4), seed);
        self.counter = n.wrapping_add(5);
        (a as u128) * 0x1_0000_0000_0000_0000_0000_0000 + (b as u128) * 0x1_0000_0000_0000_0000_0000 + (c as u128)
            * 0x1_0000_0000_0000_0000 + (d as u128) * 0x1_0000_0000_0000 + (e as u128)
    }
}

} // verus!
