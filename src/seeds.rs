//! The reproducible seed stream that drives each worker: SplitMix64.

use vstd::prelude::*;
use vstd::wrapping::u64_specs::{wrapping_add, wrapping_mul};

verus! {

/// Increment of the SplitMix64 state (the 64-bit golden ratio).
pub const GOLDEN_GAMMA: u64 = 0x9e37_79b9_7f4a_7c15;

/// First multiplier of the SplitMix64 finaliser.
pub const MIX_MUL_1: u64 = 0xbf58_476d_1ce4_e5b9;

/// Second multiplier of the SplitMix64 finaliser.
pub const MIX_MUL_2: u64 = 0x94d0_49bb_1331_11eb;

/// Fixed start of every worker's seed state, before the worker index is mixed in.
pub const WORKER_STATE_BASE: u64 = 0x1234_5678_abcd_ef01;

/// The SplitMix64 output for input `x`: add the golden gamma, then three
/// xor-shift steps of widths 30, 27 and 31 with two multiplications between.
pub open spec fn splitmix(x: u64) -> u64 {
    let a = wrapping_add(x, GOLDEN_GAMMA);
    let b = wrapping_mul(a ^ (a >> 30u64), MIX_MUL_1);
    let c = wrapping_mul(b ^ (b >> 27u64), MIX_MUL_2);
    c ^ (c >> 31u64)
}

/// SplitMix64 of `x`.
pub fn splitmix64(x: u64) -> (r: u64)
    ensures
        r == splitmix(x),
{
    let mut x = x.wrapping_add(GOLDEN_GAMMA);
    x = (x ^ (x >> 30)).wrapping_mul(MIX_MUL_1);
    x = (x ^ (x >> 27)).wrapping_mul(MIX_MUL_2);
    x ^ (x >> 31)
}

/// Advances the stream state by the golden gamma and returns the SplitMix64
/// of the new state.
pub fn next_seed(state: &mut u64) -> (r: u64)
    ensures
        *final(state) == wrapping_add(*old(state), GOLDEN_GAMMA),
        r == splitmix(*final(state)),
{
    *state = state.wrapping_add(GOLDEN_GAMMA);
    splitmix64(*state)
}

/// The starting stream state of worker `worker_id`: the fixed base xor the
/// index, mixed once, so that workers start at unrelated offsets.
pub fn worker_seed_state(worker_id: u64) -> (r: u64)
    ensures
        r == splitmix(WORKER_STATE_BASE ^ worker_id),
{
    splitmix64(WORKER_STATE_BASE ^ worker_id)
}

} // verus!
