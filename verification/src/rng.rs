//! A linear congruential generator and the bar heights that it produces.

use vstd::prelude::*;

use crate::bars::{BAR_MAX_H, NUM_BARS};

verus! {

/// The state that follows `seed`: an affine map modulo two to the thirty-second.
pub open spec fn lcg(seed: u32) -> u32 {
    ((seed * 1664525 + 1013904223) % 0x1_0000_0000) as u32
}

/// The state that follows `seed` after `n` steps.
pub open spec fn lcg_after(seed: u32, n: nat) -> u32
    decreases n,
{
    if n == 0 {
        seed
    } else {
        lcg(lcg_after(seed, (n - 1) as nat))
    }
}

/// The heights drawn from `seed`: bar `k` comes from the state after `k + 1` steps.
pub open spec fn heights_from(seed: u32) -> Seq<u8> {
    Seq::new(
        NUM_BARS as nat,
        |k: int| (lcg_after(seed, (k + 1) as nat) % (BAR_MAX_H as u32) + 1) as u8,
    )
}

/// Every bar is at least one pixel high and fits its slot.
pub open spec fn heights_fit(heights: Seq<u8>) -> bool {
    heights.len() == NUM_BARS && forall|k: int|
        0 <= k < NUM_BARS ==> 1 <= #[trigger] heights[k] <= BAR_MAX_H
}

/// Moves the generator one step and returns its new state.
pub fn lcg_next(seed: &mut u32) -> (value: u32)
    ensures
        *final(seed) == lcg(*old(seed)),
        value == *final(seed),
{
    *seed = seed.wrapping_mul(1664525).wrapping_add(1013904223);
    *seed
}

/// Draws a height for each bar and moves the generator as many steps.
pub fn gen_array(seed: &mut u32) -> (arr: [u8; NUM_BARS])
    ensures
        arr@ == heights_from(*old(seed)),
        *final(seed) == lcg_after(*old(seed), NUM_BARS as nat),
        heights_fit(arr@),
{
    let mut arr: [u8; NUM_BARS] = [0u8; NUM_BARS];
    let ghost first: u32 = *seed;
    for i in 0..NUM_BARS
        invariant
            *seed == lcg_after(first, i as nat),
            forall|k: int| 0 <= k < i ==> #[trigger] arr@[k] == heights_from(first)[k],
    {
        let value: u32 = lcg_next(seed);
        arr[i] = (value % BAR_MAX_H as u32 + 1) as u8;
    }
    arr
}

/// Whatever the seed, the heights drawn from it are from 1 to the maximum.
pub proof fn lemma_heights_fit(seed: u32)
    ensures
        heights_fit(heights_from(seed)),
{
}

/// The generator never merges two histories: different states have different
/// successors.
pub proof fn lemma_lcg_injective(a: u32, b: u32)
    requires
        lcg(a) == lcg(b),
    ensures
        a == b,
{
    lemma_lcg_reversible(a);
    lemma_lcg_reversible(b);
}

/// The state before `value`: the multiplier has an inverse modulo two to the
/// thirty-second.
spec fn lcg_before(value: u32) -> u32 {
    (((value - 1013904223) * 4276115653) % 0x1_0000_0000) as u32
}

proof fn lemma_lcg_reversible(seed: u32)
    ensures
        lcg_before(lcg(seed)) == seed,
{
    let next = lcg(seed) as int;
    let q = (seed * 1664525 + 1013904223) / 0x1_0000_0000;
    assert(next == seed * 1664525 + 1013904223 - q * 0x1_0000_0000);
    assert((next - 1013904223) * 4276115653 == seed + 0x1_0000_0000 * (seed * 1657219
        - q * 4276115653)) by (nonlinear_arith)
        requires
            next == seed * 1664525 + 1013904223 - q * 0x1_0000_0000,
    ;
    vstd::arithmetic::div_mod::lemma_mod_multiples_vanish(
        seed * 1657219 - q * 4276115653,
        seed as int,
        0x1_0000_0000,
    );
}

} // verus!
