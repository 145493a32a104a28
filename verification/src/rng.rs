//! The pseudorandom stream: a xorshift128+ variant with two 64-bit words of
//! state.  A draw is the top 52 bits of the first word after a step, read as
//! a fraction of the unit interval.

use vstd::prelude::*;

verus! {

/// Number of distinct draws.  A draw `m` lies in `[0, DRAW_SPAN)` and stands
/// for the fraction `m / DRAW_SPAN` of the unit interval.
pub const DRAW_SPAN: u64 = 0x10_0000_0000_0000;

/// The two words of state, as a pair.
pub type RngState = (u64, u64);

/// One step of the generator.
pub open spec fn step_state(s: RngState) -> RngState {
    let t = s.0 ^ (s.0 << 23);
    (s.1, t ^ (t >> 17) ^ s.1 ^ (s.1 >> 26))
}

/// The draw that a state shows: the top 52 bits of its first word.
pub open spec fn draw_of(s: RngState) -> u64 {
    s.0 >> 12
}

/// The state after `n` steps.
pub open spec fn skip(s: RngState, n: nat) -> RngState
    decreases n,
{
    if n == 0 {
        s
    } else {
        step_state(skip(s, (n - 1) as nat))
    }
}

/// The `k`-th draw that a generator in state `s` will give, counted from 0.
pub open spec fn draw(s: RngState, k: nat) -> u64 {
    draw_of(skip(s, k + 1))
}

/// The index below `len` that a draw selects: the whole part of
/// `m / DRAW_SPAN * len`.
pub open spec fn draw_index(m: u64, len: nat) -> nat {
    ((m as int * len as int) / (DRAW_SPAN as int)) as nat
}

/// A draw is below `DRAW_SPAN`.
pub proof fn lemma_draw_in_span(s: RngState)
    ensures
        draw_of(s) < DRAW_SPAN,
{
    let x = s.0;
    assert((x >> 12) < 0x10_0000_0000_0000u64) by (bit_vector);
}

/// A draw selects a valid index of any non-empty range.
pub proof fn lemma_draw_index_bound(m: u64, len: nat)
    requires
        m < DRAW_SPAN,
        len > 0,
    ensures
        draw_index(m, len) < len,
{
    let p = m as int * len as int;
    let d = DRAW_SPAN as int;
    assert(0 <= p < d * len as int) by (nonlinear_arith)
        requires
            p == m as int * len as int,
            0 <= m as int,
            (m as int) < d,
            len as int > 0,
            d > 0,
    ;
    assert(0 <= p / d < len as int) by (nonlinear_arith)
        requires
            0 <= p < d * len as int,
            d > 0,
    ;
}

/// Skipping `a` steps and then `b` more is skipping `a + b`.
pub proof fn lemma_skip_add(s: RngState, a: nat, b: nat)
    ensures
        skip(skip(s, a), b) == skip(s, a + b),
    decreases b,
{
    if b > 0 {
        lemma_skip_add(s, a, (b - 1) as nat);
    }
}

/// The generator.
#[derive(Debug, Clone, Copy)]
pub struct Rng {
    s0: u64,
    s1: u64,
}

impl View for Rng {
    type V = RngState;

    closed spec fn view(&self) -> RngState {
        (self.s0, self.s1)
    }
}

impl Rng {
    /// A generator seeded with the two words.
    pub fn new(s0: u64, s1: u64) -> (r: Rng)
        ensures
            r@ == (s0, s1),
    {
        Rng { s0, s1 }
    }

    /// Advances the state by one step.
    pub fn step(&mut self)
        ensures
            final(self)@ == step_state(old(self)@),
    {
        let mut s1: u64 = self.s0;
        let s0: u64 = self.s1;
        s1 ^= s1 << 23;
        s1 ^= s1 >> 17;
        s1 ^= s0;
        s1 ^= s0 >> 26;
        self.s0 = self.s1;
        self.s1 = s1;
        proof {
            let a = old(self).s0;
            let b = old(self).s1;
            let t = a ^ (a << 23);
            assert(t ^ (t >> 17) ^ b ^ (b >> 26) == ((t ^ (t >> 17)) ^ b) ^ (b >> 26));
        }
    }

    /// Steps once and returns the draw of the new state.
    pub fn next(&mut self) -> (m: u64)
        ensures
            final(self)@ == step_state(old(self)@),
            final(self)@ == skip(old(self)@, 1),
            m == draw_of(final(self)@),
            m == draw(old(self)@, 0),
            m < DRAW_SPAN,
    {
        self.step();
        proof {
            lemma_draw_in_span(self@);
            assert(skip(old(self)@, 1) == step_state(skip(old(self)@, 0)));
        }
        self.s0 >> 12
    }

    /// Draws once and returns the index below `len` that the draw selects.
    pub fn index(&mut self, len: usize) -> (i: usize)
        ensures
            final(self)@ == step_state(old(self)@),
            final(self)@ == skip(old(self)@, 1),
            i == draw_index(draw_of(final(self)@), len as nat),
            i == draw_index(draw(old(self)@, 0), len as nat),
            len > 0 ==> i < len,
    {
        let m: u64 = self.next();
        pick_index(m, len)
    }
}

/// The index below `len` that the draw `m` selects.
pub fn pick_index(m: u64, len: usize) -> (i: usize)
    requires
        m < DRAW_SPAN,
    ensures
        i == draw_index(m, len as nat),
        len > 0 ==> i < len,
{
    if len == 0 {
        assert(m as int * 0 == 0);
        return 0;
    }
    proof {
        lemma_draw_index_bound(m, len as nat);
        assert(m as int * len as int <= u64::MAX as int * u64::MAX as int) by (nonlinear_arith)
            requires
                0 <= m as int <= u64::MAX as int,
                0 <= len as int <= u64::MAX as int,
        ;
    }
    let p: u128 = (m as u128) * (len as u128);
    (p / (DRAW_SPAN as u128)) as usize
}

} // verus!
