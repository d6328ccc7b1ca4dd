use vstd::prelude::*;

verus! {

/// Multiplier of the tower's linear congruential generator.
pub const RNG_MUL: u64 = 6364136223846793005;

/// Increment of the tower's linear congruential generator.
pub const RNG_INC: u64 = 1442695040888963407;

/// The generator's next state: `state * RNG_MUL + RNG_INC` modulo 2^64.
#[verifier::opaque]
pub open spec fn rand_next(r: u64) -> u64 {
    ((r as nat * RNG_MUL as nat + RNG_INC as nat) % 0x1_0000_0000_0000_0000) as u64
}

/// The number the generator hands out in a given state: its top 31 bits.
pub open spec fn rand_draw(r: u64) -> u64 {
    r >> 33u64
}

/// Advances the generator one step and returns the number it hands out.
pub fn next_random(rng: &mut u64) -> (v: u64)
    ensures
        *final(rng) == rand_next(*old(rng)),
        v == rand_draw(*final(rng)),
        v < 0x8000_0000,
{
    let r = *rng;
    let m = r.wrapping_mul(RNG_MUL);
    let n = m.wrapping_add(RNG_INC);
    proof {
        reveal(rand_next);
        let x = r as nat * RNG_MUL as nat;
        let big: nat = 0x1_0000_0000_0000_0000;
        assert(m == (x % big) as u64);
        vstd::arithmetic::div_mod::lemma_add_mod_noop(x as int, RNG_INC as int, big as int);
        vstd::arithmetic::div_mod::lemma_mod_twice(RNG_INC as int, big as int);
        assert((RNG_INC as int) % (big as int) == RNG_INC as int);
        assert(((x % big) as int) % (big as int) == (x as int) % (big as int)) by {
            vstd::arithmetic::div_mod::lemma_mod_twice(x as int, big as int);
        }
        assert(n as int == ((x + RNG_INC) as int) % (big as int)) by {
            if m as int + RNG_INC as int > u64::MAX as int {
                vstd::arithmetic::div_mod::lemma_mod_sub_multiples_vanish(m as int + RNG_INC as int, big as int);
                vstd::arithmetic::div_mod::lemma_small_mod((m as int + RNG_INC as int - big as int) as nat, big);
            } else {
                vstd::arithmetic::div_mod::lemma_small_mod((m as int + RNG_INC as int) as nat, big);
            }
        }
    }
    *rng = n;
    let v = n >> 33u64;
    assert(v < 0x8000_0000) by (bit_vector)
        requires
            v == n >> 33u64,
    ;
    v
}

} // verus!
