//! The xorshift64 generator the procedural levels draw from, and the
//! integer draws built on it.
use vstd::prelude::*;

verus! {

/// One xorshift64 step (shifts 13, 7, 17).
pub open spec fn xorshift(s: u64) -> u64 {
    let a = s ^ (s << 13u64);
    let b = a ^ (a >> 7u64);
    b ^ (b << 17u64)
}

/// Advances the state by one xorshift64 step and returns the new state.
pub fn rng_next(state: &mut u64) -> (r: u64)
    ensures
        *final(state) == xorshift(*old(state)),
        r == *final(state),
{
    *state = *state ^ (*state << 13u64);
    *state = *state ^ (*state >> 7u64);
    *state = *state ^ (*state << 17u64);
    *state
}

/// A draw in `min..=max`: the next state reduced modulo the range's size.
pub open spec fn usize_draw(s: u64, min: usize, max: usize) -> usize {
    (min + (s as usize) % ((max - min + 1) as usize)) as usize
}

/// Draws an integer in `min..=max`.
pub fn rng_usize(state: &mut u64, min: usize, max: usize) -> (r: usize)
    requires
        min <= max,
        max - min + 1 <= usize::MAX,
    ensures
        *final(state) == xorshift(*old(state)),
        r == usize_draw(*final(state), min, max),
        min <= r <= max,
{
    let x = rng_next(state);
    let span = max - min + 1;
    let r = min + (x as usize) % span;
    r
}

/// A generator seeded once (its seed is forced odd, never zero) and then
/// advanced by xorshift64.
pub struct AppleRng {
    state: u64,
}

impl AppleRng {
    pub closed spec fn state_spec(&self) -> u64 {
        self.state
    }

    /// Seeds the generator; the low bit is forced on so the state is never zero.
    pub fn from_seed(seed: u64) -> (r: Self)
        ensures
            r.state_spec() == seed | 1,
            r.state_spec() != 0,
    {
        let s = seed | 1;
        assert(s != 0) by (bit_vector)
            requires
                s == seed | 1,
        ;
        AppleRng { state: s }
    }

    /// Advances the generator and returns the low 32 bits of the new state.
    pub fn next_u32(&mut self) -> (r: u32)
        ensures
            final(self).state_spec() == xorshift(old(self).state_spec()),
            r == final(self).state_spec() as u32,
    {
        let x = rng_next(&mut self.state);
        x as u32
    }
}

/// A non-zero state never steps to zero, so the generator never sticks.
pub proof fn lemma_xorshift_nonzero(s: u64)
    requires
        s != 0,
    ensures
        xorshift(s) != 0,
{
    let a = s ^ (s << 13u64);
    let b = a ^ (a >> 7u64);
    let c = b ^ (b << 17u64);
    assert(s != 0 ==> a != 0) by (bit_vector)
        requires
            a == s ^ (s << 13u64),
    ;
    assert(a != 0 ==> b != 0) by (bit_vector)
        requires
            b == a ^ (a >> 7u64),
    ;
    assert(b != 0 ==> c != 0) by (bit_vector)
        requires
            c == b ^ (b << 17u64),
    ;
}

} // verus!
