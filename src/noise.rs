use vstd::prelude::*;

verus! {

/// One xorshift round (shifts 13, 17, 5) on 128 bits; bits shifted out are dropped.
pub open spec fn xorshift(x: u128) -> u128 {
    let a = x ^ (x << 13u128);
    let b = a ^ (a >> 17u128);
    b ^ (b << 5u128)
}

/// A pseudo-random byte from a seed, such as a clock reading in nanoseconds:
/// the low byte of one xorshift round on it.
pub fn rand(seed: u128) -> (r: u8)
    ensures
        r == xorshift(seed) as u8,
{
    let mut now: u128 = seed;
    now ^= now << 13u128;
    now ^= now >> 17u128;
    now ^= now << 5u128;
    now as u8
}

} // verus!
