//! The seeded random stream that every stochastic stage draws from.
//!
//! The generator is PCG-XSH-RR with 64 bits of state and 32 bits of output.
//! A generator is a plain value: the stages take it by mutable borrow, and
//! equal seeds give equal streams.

use vstd::prelude::*;

verus! {

/// A seed: the low half starts the state, the high half selects the stream.
#[derive(Debug, Clone, Copy, PartialEq, Eq, Hash, Structural)]
pub struct Seed(pub u128);

/// Multiplier of the underlying linear congruential generator.
pub const PCG_MULTIPLIER: u64 = 6364136223846793005;

/// The mathematical state of a generator.
pub ghost struct RngState {
    pub state: u64,
    pub increment: u64,
}

/// Low 64 bits of a seed.
pub open spec fn seed_low(seed: u128) -> u64 {
    (seed & 0xffff_ffff_ffff_ffff) as u64
}

/// High 64 bits of a seed.
pub open spec fn seed_high(seed: u128) -> u64 {
    (seed >> 64) as u64
}

/// The output permutation: xorshift the high bits down, then rotate right by
/// the topmost five bits.
pub open spec fn permuted(state: u64) -> u32 {
    let xorshifted = ((((state >> 18) ^ state) >> 27) & 0xffff_ffff) as u32;
    let rot = (state >> 59) as u32;
    (xorshifted >> rot) | (xorshifted << ((32 - rot) as u32 & 31))
}

impl RngState {
    /// The state after one draw.
    pub open spec fn advanced(self) -> RngState {
        RngState {
            state: self.state.wrapping_mul(PCG_MULTIPLIER).wrapping_add(self.increment),
            increment: self.increment,
        }
    }

    /// The state after `n` draws.
    pub open spec fn advanced_by(self, n: nat) -> RngState
        decreases n,
    {
        if n == 0 {
            self
        } else {
            self.advanced().advanced_by((n - 1) as nat)
        }
    }

    /// The 32 bits that the next draw gives.
    pub open spec fn output(self) -> u32 {
        permuted(self.state)
    }

    /// The 64 bits that the next two draws give, the first as the high half.
    pub open spec fn output_u64(self) -> u64 {
        ((self.output() as u64) << 32) | (self.advanced().output() as u64)
    }

    /// The state that a seed starts a generator in.
    pub open spec fn seeded(seed: u128) -> RngState {
        let increment = (seed_high(seed) << 1) | 1;
        let first = RngState { state: 0, increment }.advanced();
        RngState { state: first.state.wrapping_add(seed_low(seed)), increment }.advanced()
    }
}

/// A random number generator.
#[derive(Debug)]
pub struct Rng {
    state: u64,
    increment: u64,
}

impl View for Rng {
    type V = RngState;

    closed spec fn view(&self) -> RngState {
        RngState { state: self.state, increment: self.increment }
    }
}

impl Clone for Rng {
    /// A second generator that will give the same stream as this one.
    fn clone(&self) -> (rng: Rng)
        ensures
            rng@ == self@,
    {
        Rng { state: self.state, increment: self.increment }
    }
}

impl Rng {
    pub fn new(seed: Seed) -> (rng: Rng)
        ensures
            rng@ == RngState::seeded(seed.0),
    {
        let low: u64 = (seed.0 & 0xffff_ffff_ffff_ffff) as u64;
        let high: u64 = (seed.0 >> 64) as u64;
        let increment: u64 = (high << 1) | 1;
        let mut rng = Rng { state: 0, increment };
        rng.step();
        rng.state = rng.state.wrapping_add(low);
        rng.step();
        rng
    }

    fn step(&mut self)
        ensures
            final(self)@ == old(self)@.advanced(),
    {
        self.state = self.state.wrapping_mul(PCG_MULTIPLIER).wrapping_add(self.increment);
    }

    /// Draws 32 uniformly distributed bits.
    pub fn next_u32(&mut self) -> (r: u32)
        ensures
            r == old(self)@.output(),
            final(self)@ == old(self)@.advanced(),
    {
        let state = self.state;
        self.step();
        assert(((((state >> 18) ^ state) >> 27) & 0xffff_ffff) <= 0xffff_ffff) by (bit_vector);
        assert((state >> 59) < 32) by (bit_vector);
        let xorshifted: u32 = ((((state >> 18) ^ state) >> 27) & 0xffff_ffff) as u32;
        let rot: u32 = (state >> 59) as u32;
        let back: u32 = (32 - rot) & 31;
        assert(back < 32) by (bit_vector)
            requires
                back == (32 - rot) as u32 & 31,
        ;
        (xorshifted >> rot) | (xorshifted << back)
    }

    /// Draws 64 uniformly distributed bits.
    pub fn next_u64(&mut self) -> (r: u64)
        ensures
            r == old(self)@.output_u64(),
            final(self)@ == old(self)@.advanced_by(2),
    {
        let high = self.next_u32() as u64;
        let low = self.next_u32() as u64;
        proof {
            reveal_with_fuel(RngState::advanced_by, 3);
        }
        (high << 32) | low
    }

    /// Draws a number in `0 .. len`.
    pub fn next_index(&mut self, len: usize) -> (r: usize)
        requires
            len > 0,
        ensures
            r < len,
            r == old(self)@.output_u64() % (len as u64),
            final(self)@ == old(self)@.advanced_by(2),
    {
        let bits = self.next_u64();
        (bits % (len as u64)) as usize
    }
}

} // verus!
