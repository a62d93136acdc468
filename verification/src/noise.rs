use vstd::prelude::*;

verus! {

/// Multiplier of the noise generator's linear congruential step.
pub const NOISE_MULTIPLIER: u64 = 6364136223846793005;

/// Increment of the noise generator's linear congruential step.
pub const NOISE_INCREMENT: u64 = 1442695040888963407;

/// The 64-bit pattern the test-file generator turns into noise for `seed`: one
/// linear congruential step modulo 2^64, then the top bits folded down by 21.
pub open spec fn noise_mix(seed: u64) -> u64 {
    let a = ((seed as int * NOISE_MULTIPLIER as int + NOISE_INCREMENT as int) % 0x1_0000_0000_0000_0000) as u64;
    a ^ (a >> 21u64)
}

/// The pseudo-random bit pattern behind the simulated sensor noise of `seed`.
pub fn noise_bits(seed: u64) -> (r: u64)
    ensures
        r == noise_mix(seed),
{
    let x = seed.wrapping_mul(NOISE_MULTIPLIER);
    let y = x.wrapping_add(NOISE_INCREMENT);
    proof {
        let m: int = 0x1_0000_0000_0000_0000;
        let p = seed as int * NOISE_MULTIPLIER as int;
        assert(x as int == p % m);
        vstd::arithmetic::div_mod::lemma_add_mod_noop(p, NOISE_INCREMENT as int, m);
        vstd::arithmetic::div_mod::lemma_small_mod(NOISE_INCREMENT as nat, m as nat);
        vstd::arithmetic::div_mod::lemma_small_mod(y as nat, m as nat);
        assert(y as int == (x as int + NOISE_INCREMENT as int) % m);
    }
    y ^ (y >> 21u64)
}

} // verus!
