//! Seeded random numbers for deterministic simulation.
//!
//! A single seed cascades through phases to independent streams: each phase
//! mixes the seed with a constant of its own. The same seed and phase give the
//! same numbers.

use vstd::prelude::*;

verus! {

/// The constant that sets phases apart.
pub const PHASE_MIX: u64 = 0x9e37_79b9_7f4a_7c15;

/// What stands in for a seed of zero.
pub const ZERO_SEED: u64 = 0xdead_beef_cafe_babe;

/// The state that follows a state, which is also the number drawn.
pub open spec fn xorshift(state: u64) -> u64 {
    let a = state ^ (state << 13);
    let b = a ^ (a >> 7);
    b ^ (b << 17)
}

/// The state that a seed starts from.
pub open spec fn seed_state(seed: u64) -> u64 {
    if seed == 0 {
        ZERO_SEED
    } else {
        seed
    }
}

/// The low 64 bits of a product.
pub open spec fn wrapped_product(a: u64, b: u64) -> u64 {
    ((a * b) % 0x1_0000_0000_0000_0000) as u64
}

/// The state that a phase of a seed starts from.
pub open spec fn phase_state(seed: u64, phase: u64) -> u64 {
    seed_state(seed ^ wrapped_product(phase, PHASE_MIX))
}

/// The number drawn after `n` earlier ones from a state.
pub open spec fn nth_draw(state: u64, n: nat) -> u64
    decreases n,
{
    if n == 0 {
        xorshift(state)
    } else {
        nth_draw(xorshift(state), (n - 1) as nat)
    }
}

/// A number in `[lo, hi)` made of a draw.
pub open spec fn in_range(draw: u64, lo: u64, hi: u64) -> u64 {
    (lo + draw as int % (hi - lo)) as u64
}

/// A stream of random numbers.
#[derive(Debug, Clone, Copy)]
pub struct XorShift64 {
    state: u64,
}

impl View for XorShift64 {
    type V = u64;

    closed spec fn view(&self) -> u64 {
        self.state
    }
}

impl XorShift64 {
    /// Construct from a seed. A seed of zero would give zeros only; another one
    /// takes its place.
    pub fn new(seed: u64) -> (rng: Self)
        ensures
            rng@ == seed_state(seed),
    {
        XorShift64 {
            state: if seed == 0 {
                ZERO_SEED
            } else {
                seed
            },
        }
    }

    /// The stream of a phase of a seed.
    pub fn phase(seed: u64, phase: u64) -> (rng: Self)
        ensures
            rng@ == phase_state(seed, phase),
    {
        let mixed: u64 = seed ^ phase.wrapping_mul(PHASE_MIX);
        Self::new(mixed)
    }

    /// Draw a number.
    pub fn next_u64(&mut self) -> (draw: u64)
        ensures
            draw == xorshift(old(self)@),
            final(self)@ == draw,
    {
        let mut x: u64 = self.state;
        x = x ^ (x << 13);
        x = x ^ (x >> 7);
        x = x ^ (x << 17);
        self.state = x;
        x
    }

    /// Draw a number below a bound; a bound of zero draws nothing.
    pub fn next_u32(&mut self, bound: u32) -> (draw: u32)
        ensures
            bound == 0 ==> draw == 0 && final(self)@ == old(self)@,
            bound != 0 ==> draw == xorshift(old(self)@) % bound as u64 && draw < bound
                && final(self)@ == xorshift(old(self)@),
    {
        if bound == 0 {
            return 0;
        }
        (self.next_u64() % (bound as u64)) as u32
    }

    /// Draw a number in `[lo, hi)`.
    pub fn between(&mut self, lo: u64, hi: u64) -> (draw: u64)
        requires
            hi > lo,
        ensures
            draw == in_range(xorshift(old(self)@), lo, hi),
            lo <= draw < hi,
            final(self)@ == xorshift(old(self)@),
    {
        let span: u64 = hi - lo;
        lo + (self.next_u64() % span)
    }
}

// ---- laws ----

/// Each step of the generator can be undone, so different states stay
/// different.
proof fn lemma_xorshift_injective(a: u64, b: u64)
    requires
        a != b,
    ensures
        xorshift(a) != xorshift(b),
{
    let a1 = a ^ (a << 13);
    let b1 = b ^ (b << 13);
    assert(a != b ==> (a ^ (a << 13)) != (b ^ (b << 13))) by (bit_vector);
    let a2 = a1 ^ (a1 >> 7);
    let b2 = b1 ^ (b1 >> 7);
    assert(a1 != b1 ==> (a1 ^ (a1 >> 7)) != (b1 ^ (b1 >> 7))) by (bit_vector);
    assert(a2 != b2 ==> (a2 ^ (a2 << 17)) != (b2 ^ (b2 << 17))) by (bit_vector);
}

/// No stream that starts from a state other than zero ever draws zero; so none
/// that starts from a seed does.
pub proof fn draws_are_never_zero(state: u64, n: nat)
    requires
        state != 0,
    ensures
        nth_draw(state, n) != 0,
    decreases n,
{
    assert(0u64 ^ (0u64 << 13) == 0u64) by (bit_vector);
    assert(0u64 ^ (0u64 >> 7) == 0u64) by (bit_vector);
    assert(0u64 ^ (0u64 << 17) == 0u64) by (bit_vector);
    assert(xorshift(0) == 0);
    lemma_xorshift_injective(state, 0);
    if n > 0 {
        draws_are_never_zero(xorshift(state), (n - 1) as nat);
    }
}

/// A seed, whatever it is, starts from a state other than zero.
pub proof fn seeds_start_nonzero(seed: u64, phase: u64)
    ensures
        seed_state(seed) != 0,
        phase_state(seed, phase) != 0,
{
}

/// Streams from different states differ in every draw.
pub proof fn streams_differ(a: u64, b: u64, n: nat)
    requires
        a != b,
    ensures
        nth_draw(a, n) != nth_draw(b, n),
    decreases n,
{
    lemma_xorshift_injective(a, b);
    if n > 0 {
        streams_differ(xorshift(a), xorshift(b), (n - 1) as nat);
    }
}

/// Different seeds, neither of them zero, give streams that differ in every
/// draw.
pub proof fn seeds_diverge(a: u64, b: u64, n: nat)
    requires
        a != b,
        a != 0,
        b != 0,
    ensures
        nth_draw(seed_state(a), n) != nth_draw(seed_state(b), n),
{
    streams_differ(a, b, n);
}

/// Multiplying by the phase constant keeps phases apart: the constant is odd
/// and so has an inverse.
proof fn lemma_phase_product_injective(p: u64, q: u64)
    requires
        wrapped_product(p, PHASE_MIX) == wrapped_product(q, PHASE_MIX),
    ensures
        p == q,
{
    let m = 0x1_0000_0000_0000_0000int;
    let c = PHASE_MIX as int;
    let inverse = 0xf1de_83e1_9937_733dint;
    assert((0x9e37_79b9_7f4a_7c15int * 0xf1de_83e1_9937_733dint) % 0x1_0000_0000_0000_0000int == 1)
        by (nonlinear_arith);
    lemma_undo(p as int, c, inverse, m);
    lemma_undo(q as int, c, inverse, m);
}

proof fn lemma_undo(x: int, c: int, inverse: int, m: int)
    requires
        0 <= x < m,
        (c * inverse) % m == 1,
        m > 1,
    ensures
        (((x * c) % m) * inverse) % m == x,
{
    vstd::arithmetic::div_mod::lemma_mul_mod_noop_left(x * c, inverse, m);
    assert((x * c) * inverse == x * (c * inverse)) by (nonlinear_arith);
    vstd::arithmetic::div_mod::lemma_mul_mod_noop_right(x, c * inverse, m);
    vstd::arithmetic::div_mod::lemma_small_mod(x as nat, m as nat);
}

/// Different phases of a seed give streams that differ in every draw, unless
/// one of them had to be given another start because its mixed seed is zero.
pub proof fn phases_diverge(seed: u64, p: u64, q: u64, n: nat)
    requires
        p != q,
        seed != wrapped_product(p, PHASE_MIX),
        seed != wrapped_product(q, PHASE_MIX),
    ensures
        nth_draw(phase_state(seed, p), n) != nth_draw(phase_state(seed, q), n),
{
    if wrapped_product(p, PHASE_MIX) == wrapped_product(q, PHASE_MIX) {
        lemma_phase_product_injective(p, q);
    }
    let x = wrapped_product(p, PHASE_MIX);
    let y = wrapped_product(q, PHASE_MIX);
    assert(x != y ==> seed ^ x != seed ^ y) by (bit_vector);
    assert(seed != x ==> seed ^ x != 0) by (bit_vector);
    assert(seed != y ==> seed ^ y != 0) by (bit_vector);
    streams_differ(phase_state(seed, p), phase_state(seed, q), n);
}

/// A number drawn for a range lies in it and is the draw up to multiples of the range's
/// width, and every number of the range is drawn by some draw.
pub proof fn draws_fill_their_range(draw: u64, lo: u64, hi: u64, wanted: u64)
    requires
        lo < hi,
        lo <= wanted < hi,
    ensures
        lo <= in_range(draw, lo, hi) < hi,
        exists|k: int| draw == in_range(draw, lo, hi) - lo + #[trigger] (k * (hi - lo)),
        in_range((wanted - lo) as u64, lo, hi) == wanted,
{
    let width = hi - lo;
    vstd::arithmetic::div_mod::lemma_mod_bound(draw as int, width);
    vstd::arithmetic::div_mod::lemma_fundamental_div_mod(draw as int, width);
    let k = draw as int / width;
    assert(k * width == width * k) by (nonlinear_arith);
    assert(draw == in_range(draw, lo, hi) - lo + k * (hi - lo));
    vstd::arithmetic::div_mod::lemma_small_mod((wanted - lo) as nat, width as nat);
}

} // verus!
