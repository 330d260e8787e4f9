//! Deterministic randomness: a PCG-XSH-RR 64/32 generator and the three
//! named streams the simulation uses. Each stream derives from the scenario
//! seed plus a stable identifier, so systems cannot share streams and a draw
//! on one stream cannot perturb another.

use vstd::prelude::*;
use vstd::string::*;
use vstd::wrapping::u64_specs;

use crate::hash::{fnv1a64, fnv1a_spec};

verus! {

/// The PCG 64-bit LCG multiplier.
pub const PCG_MULTIPLIER: u64 = 6364136223846793005;

/// A PCG-XSH-RR 64/32 generator: a 64-bit LCG state and an odd increment
/// selecting the stream.
#[derive(Debug, Clone, Copy, PartialEq, Eq, Structural)]
pub struct Pcg32 {
    pub state: u64,
    pub inc: u64,
}

/// The LCG step.
pub open spec fn pcg_advance(state: u64, inc: u64) -> u64 {
    u64_specs::wrapping_add(u64_specs::wrapping_mul(state, PCG_MULTIPLIER), inc)
}

/// Rotate a 32-bit word right by `r` (< 32) bits.
pub open spec fn rotr32(x: u32, r: u32) -> u32 {
    (x >> r) | (x << (((32 - r) as u32) & 31u32))
}

/// The XSH-RR output permutation of a state.
pub open spec fn pcg_output(old: u64) -> u32 {
    rotr32((((old >> 18u64) ^ old) >> 27u64) as u32, (old >> 59u64) as u32)
}

/// The generator after one draw.
pub open spec fn pcg_next(g: Pcg32) -> Pcg32 {
    Pcg32 { state: pcg_advance(g.state, g.inc), inc: g.inc }
}

/// The generator seeded with `seed` on stream `stream`, in the reference
/// construction: zero state, odd increment from the stream, one step, add the
/// seed, one more step.
pub open spec fn pcg_seeded(seed: u64, stream: u64) -> Pcg32 {
    let inc = ((stream << 1u64) | 1u64) as u64;
    let first = pcg_advance(0, inc);
    Pcg32 { state: pcg_advance(u64_specs::wrapping_add(first, seed), inc), inc }
}

/// `bound` scaled by a 32-bit draw: the high word of `x * bound`.
pub open spec fn scaled_draw(x: u32, bound: u32) -> u32 {
    (((x as nat) * (bound as nat)) / 0x1_0000_0000nat) as u32
}

proof fn lemma_scaled_draw_below(x: u32, bound: u32)
    requires
        bound > 0,
    ensures
        scaled_draw(x, bound) < bound,
        ((x as nat) * (bound as nat)) / 0x1_0000_0000nat < bound,
{
    assert((x as nat) * (bound as nat) < 0x1_0000_0000nat * (bound as nat)) by (nonlinear_arith)
        requires
            x < 0x1_0000_0000nat,
            bound > 0,
    ;
    assert(((x as nat) * (bound as nat)) / 0x1_0000_0000nat < (bound as nat)) by (nonlinear_arith)
        requires
            (x as nat) * (bound as nat) < 0x1_0000_0000nat * (bound as nat),
    ;
}

/// Lemire's rejection threshold for `bound`: `2^32 mod bound`. A draw whose
/// low word falls below it is rejected, so that every value of `0..bound`
/// stands for the same number of 32-bit outputs.
pub open spec fn lemire_threshold(bound: u32) -> int {
    (0x1_0000_0000int - bound) % (bound as int)
}

/// The low word of an output times `bound`.
pub open spec fn low_word(x: u32, bound: u32) -> int {
    ((x as int) * (bound as int)) % 0x1_0000_0000int
}

/// The generator's next output is accepted for `bound`.
pub open spec fn draw_accepted(g: Pcg32, bound: u32) -> bool {
    low_word(pcg_output(g.state), bound) >= lemire_threshold(bound)
}

/// The bounded draw from `g` with at most `left` rejections: the first
/// accepted output's high word times `bound`, and the generator after it.
/// With no rejections left, the next output is taken as it is.
pub open spec fn draw_from(g: Pcg32, bound: u32, left: nat) -> (u32, Pcg32)
    decreases left,
{
    if left == 0 || draw_accepted(g, bound) {
        (scaled_draw(pcg_output(g.state), bound), pcg_next(g))
    } else {
        draw_from(pcg_next(g), bound, (left - 1) as nat)
    }
}

/// The number of rejections a bounded draw allows: `u64::MAX`, far more than
/// any stream will ever reject in a row.
pub open spec fn max_rejections() -> nat {
    0xffff_ffff_ffff_ffffnat
}

/// A draw in `0..bound` from `g` by Lemire's method, and the generator after it.
pub open spec fn bounded_draw(g: Pcg32, bound: u32) -> (u32, Pcg32) {
    draw_from(g, bound, max_rejections())
}

/// A bounded draw lies below its bound.
pub proof fn lemma_draw_below(g: Pcg32, bound: u32, left: nat)
    requires
        bound > 0,
    ensures
        draw_from(g, bound, left).0 < bound,
    decreases left,
{
    if left == 0 || draw_accepted(g, bound) {
        lemma_scaled_draw_below(pcg_output(g.state), bound);
    } else {
        lemma_draw_below(pcg_next(g), bound, (left - 1) as nat);
    }
}

impl Pcg32 {
    /// Seed a generator from `seed` and a 64-bit stream selector.
    pub fn seeded(seed: u64, stream: u64) -> (r: Pcg32)
        ensures
            r == pcg_seeded(seed, stream),
    {
        let inc = (stream << 1u64) | 1u64;
        let mut g = Pcg32 { state: 0, inc };
        g.state = g.state.wrapping_mul(PCG_MULTIPLIER).wrapping_add(g.inc);
        g.state = g.state.wrapping_add(seed);
        g.state = g.state.wrapping_mul(PCG_MULTIPLIER).wrapping_add(g.inc);
        g
    }

    /// Derive a stream from the scenario seed and a stable stream name.
    pub fn for_stream(seed: u64, stream: &str) -> (r: Pcg32)
        ensures
            r == pcg_seeded(seed, fnv1a_spec(stream.spec_bytes())),
    {
        Pcg32::seeded(seed, fnv1a64(stream.as_bytes()))
    }

    /// The next 32-bit output.
    pub fn next_u32(&mut self) -> (r: u32)
        ensures
            r == pcg_output(old(self).state),
            *final(self) == pcg_next(*old(self)),
    {
        let old_state = self.state;
        self.state = old_state.wrapping_mul(PCG_MULTIPLIER).wrapping_add(self.inc);
        let xorshifted = (((old_state >> 18u64) ^ old_state) >> 27u64) as u32;
        let rot64: u64 = old_state >> 59u64;
        assert(rot64 < 32) by (bit_vector)
            requires
                rot64 == old_state >> 59u64,
        ;
        let rot = rot64 as u32;
        let back: u32 = (32 - rot) & 31u32;
        assert(back < 32) by (bit_vector)
            requires
                back == ((32 - rot) as u32) & 31u32,
        ;
        (xorshifted >> rot) | (xorshifted << back)
    }

    /// A draw in `0..bound` by Lemire's method: the high word of the next
    /// output times `bound`, once its low word clears the rejection threshold.
    pub fn below(&mut self, bound: u32) -> (r: u32)
        requires
            bound > 0,
        ensures
            (r, *final(self)) == bounded_draw(*old(self), bound),
            r < bound,
    {
        proof {
            lemma_draw_below(*self, bound, max_rejections());
        }
        let threshold: u64 = (0x1_0000_0000u64 - bound as u64) % (bound as u64);
        let mut left: u64 = u64::MAX;
        loop
            invariant
                bound > 0,
                threshold == lemire_threshold(bound),
                draw_from(*self, bound, left as nat) == bounded_draw(*old(self), bound),
            decreases left,
        {
            let ghost g = *self;
            let x = self.next_u32();
            assert(x == pcg_output(g.state));
            assert((x as int) * (bound as int) < 0x1_0000_0000_0000_0000int) by (nonlinear_arith)
                requires
                    x < 0x1_0000_0000int,
                    bound < 0x1_0000_0000int,
            ;
            let m = (x as u64) * (bound as u64);
            let low = m % 0x1_0000_0000u64;
            let high = m / 0x1_0000_0000u64;
            assert(low as int == low_word(x, bound));
            assert(high as int == ((x as nat) * (bound as nat)) / 0x1_0000_0000nat);
            proof {
                lemma_scaled_draw_below(x, bound);
            }
            if low >= threshold || left == 0 {
                assert(draw_from(g, bound, left as nat) == (scaled_draw(x, bound), pcg_next(g)));
                return high as u32;
            }
            assert(!draw_accepted(g, bound));
            assert(draw_from(g, bound, left as nat) == draw_from(pcg_next(g), bound, (left - 1) as nat));
            left = left - 1;
        }
    }

    /// Uniform draw in `lo..=hi`; the span fits in 32 bits.
    pub fn range_i64(&mut self, lo: i64, hi: i64) -> (r: i64)
        requires
            lo <= hi,
            hi - lo < u32::MAX,
        ensures
            r == lo + bounded_draw(*old(self), (hi - lo + 1) as u32).0,
            lo <= r <= hi,
            *final(self) == bounded_draw(*old(self), (hi - lo + 1) as u32).1,
    {
        let span = (hi - lo + 1) as u32;
        let d = self.below(span);
        lo + d as i64
    }

    /// Uniform draw in `lo..=hi`; the span fits in 32 bits.
    pub fn range_u64(&mut self, lo: u64, hi: u64) -> (r: u64)
        requires
            lo <= hi,
            hi - lo < u32::MAX,
        ensures
            r == lo + bounded_draw(*old(self), (hi - lo + 1) as u32).0,
            lo <= r <= hi,
            *final(self) == bounded_draw(*old(self), (hi - lo + 1) as u32).1,
    {
        let span = (hi - lo + 1) as u32;
        let d = self.below(span);
        lo + d as u64
    }

    /// Uniform index into a slice of `len` elements.
    pub fn pick(&mut self, len: usize) -> (r: usize)
        requires
            0 < len <= u32::MAX,
        ensures
            r == bounded_draw(*old(self), len as u32).0,
            r < len,
            *final(self) == bounded_draw(*old(self), len as u32).1,
    {
        let d = self.below(len as u32);
        d as usize
    }
}

/// The three named streams. Systems may not share streams.
#[derive(Debug, Clone, Copy, PartialEq, Eq, Structural)]
pub struct RngStreams {
    pub starting_variation: Pcg32,
    pub opportunity_timing: Pcg32,
    pub opportunity_selection: Pcg32,
}

/// The three streams of `seed`, each selected by its stable name.
pub open spec fn streams_for(seed: u64) -> RngStreams {
    RngStreams {
        starting_variation: pcg_seeded(seed, fnv1a_spec("starting_variation".spec_bytes())),
        opportunity_timing: pcg_seeded(seed, fnv1a_spec("opportunity_timing".spec_bytes())),
        opportunity_selection: pcg_seeded(seed, fnv1a_spec("opportunity_selection".spec_bytes())),
    }
}

impl RngStreams {
    pub fn new(seed: u64) -> (r: RngStreams)
        ensures
            r == streams_for(seed),
    {
        RngStreams {
            starting_variation: Pcg32::for_stream(seed, "starting_variation"),
            opportunity_timing: Pcg32::for_stream(seed, "opportunity_timing"),
            opportunity_selection: Pcg32::for_stream(seed, "opportunity_selection"),
        }
    }
}

} // verus!
