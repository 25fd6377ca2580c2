//! A fast pseudorandom generator: xorshift* over a 64-bit state.
use vstd::prelude::*;

verus! {

/// The state after one xorshift step.
pub open spec fn xorshift(s: u64) -> u64 {
    let a = s ^ (s >> 12u64);
    let b = a ^ (a << 25u64);
    b ^ (b >> 27u64)
}

/// Advances `state` by one xorshift step and returns the new state scrambled by
/// the xorshift* multiplier, modulo 2^64.
pub fn fast_random(state: &mut u64) -> (r: u64)
    ensures
        *final(state) == xorshift(*old(state)),
        r == (xorshift(*old(state)) as int * 0x2545_f491_4f6c_dd1d) % 0x1_0000_0000_0000_0000,
{
    let mut s = *state;
    s = s ^ (s >> 12);
    s = s ^ (s << 25);
    s = s ^ (s >> 27);
    *state = s;
    s.wrapping_mul(0x2545_f491_4f6c_dd1d)
}

/// A nonzero state stays nonzero and always moves: the generator never falls
/// into the all-zero state, from which it could not leave, and never stands
/// still, so two successive calls leave different states.
pub proof fn lemma_xorshift_nonzero(s: u64)
    requires
        s != 0,
    ensures
        xorshift(s) != 0,
        xorshift(s) != s,
{
    assert(s != 0 ==> ((s ^ (s >> 12u64)) ^ ((s ^ (s >> 12u64)) << 25u64)) ^ (((s ^ (s
        >> 12u64)) ^ ((s ^ (s >> 12u64)) << 25u64)) >> 27u64) != 0 && ((s ^ (s >> 12u64)) ^ ((s ^ (s
        >> 12u64)) << 25u64)) ^ (((s ^ (s >> 12u64)) ^ ((s ^ (s >> 12u64)) << 25u64)) >> 27u64) != s)
        by (bit_vector);
}

/// Two successive steps from a nonzero state: each state is nonzero and
/// differs from the one before it.
pub proof fn lemma_successive_states_differ(s: u64)
    requires
        s != 0,
    ensures
        xorshift(s) != s,
        xorshift(xorshift(s)) != xorshift(s),
        xorshift(xorshift(s)) != 0,
{
    lemma_xorshift_nonzero(s);
    lemma_xorshift_nonzero(xorshift(s));
}

} // verus!
