//! The colour policy: maps an escape iteration count and the escape
//! threshold to an RGBA pixel.
//!
//! Each channel is `factor * (iterations / threshold) * 255`, rounded to the
//! nearest integer and clamped to 255; alpha is fully opaque. The factors are
//! 1/20 for red, 1/2 for green and 1 for blue, so every channel has the form
//! `255 * iterations / (den * threshold)` for a small denominator `den`, which
//! the rounding division below computes exactly over the integers.

use vstd::prelude::*;

use crate::pixel::Pixel;

verus! {

/// `255 * it / (den * t)`, rounded to nearest (halves away from zero) and
/// clamped to the 0..=255 channel range.
pub open spec fn scaled_channel(it: int, t: int, den: int) -> u8
    recommends
        it >= 0,
        t >= 1,
        den >= 1,
{
    let q = (2 * (255 * it) + den * t) / (2 * (den * t));
    if q > 255 {
        255u8
    } else {
        q as u8
    }
}

/// The pixel the default colour policy assigns to an escape count of `it`
/// with escape threshold `t`.
pub open spec fn colour_spec(it: int, t: int) -> Pixel
    recommends
        it >= 0,
        t >= 1,
{
    Pixel {
        r: scaled_channel(it, t, 20),
        g: scaled_channel(it, t, 2),
        b: scaled_channel(it, t, 1),
        a: 255,
    }
}

/// One colour channel: `255 * iterations / (den * threshold)`, rounded to
/// nearest and clamped to 255.
fn channel(iterations: u32, threshold: u32, den: u64) -> (c: u8)
    requires
        threshold >= 1,
        1 <= den <= 20,
    ensures
        c == scaled_channel(iterations as int, threshold as int, den as int),
{
    proof {
        assert((den as int) * (threshold as int) <= 20 * 0xffff_ffffu64) by (nonlinear_arith)
            requires
                1 <= den <= 20,
                threshold <= 0xffff_ffffu64,
        ;
        assert((den as int) * (threshold as int) >= 1) by (nonlinear_arith)
            requires
                den >= 1,
                threshold >= 1,
        ;
    }
    let n: u64 = 255u64 * (iterations as u64);
    let d: u64 = den * (threshold as u64);
    let q: u64 = (2 * n + d) / (2 * d);
    if q > 255 {
        255
    } else {
        q as u8
    }
}

/// The default colour policy: a blue-tinted gradient over the escape
/// fraction `iterations / threshold`.
pub fn my_colour_function(iterations: u32, threshold: u32) -> (p: Pixel)
    requires
        threshold >= 1,
    ensures
        p == colour_spec(iterations as int, threshold as int),
{
    Pixel {
        r: channel(iterations, threshold, 20),
        g: channel(iterations, threshold, 2),
        b: channel(iterations, threshold, 1),
        a: 255,
    }
}

/// With an escape threshold of at most 510, the colour of any positive
/// escape count differs from the sentinel: its blue channel, rounded from
/// `255 * it / t >= 1/2`, is at least 1.
pub proof fn lemma_colour_not_set_pixel(it: int, t: int)
    requires
        1 <= it,
        1 <= t <= 510,
    ensures
        colour_spec(it, t) != crate::pixel::set_pixel_spec(),
{
    let n = 2 * (255 * it) + 1 * t;
    let d = 2 * (1 * t);
    assert(510 * it >= 510) by (nonlinear_arith)
        requires
            it >= 1,
    ;
    assert(n >= d);
    vstd::arithmetic::div_mod::lemma_div_is_ordered(d, n, d);
    vstd::arithmetic::div_mod::lemma_div_by_self(d);
    assert(n / d >= 1);
    assert(scaled_channel(it, t, 1) >= 1);
}

/// A colour policy: any mapping from an escape count and the escape
/// threshold to a pixel, described exactly by its own spec function.
pub trait ColourPolicy {
    /// The pixel this policy assigns to escape count `iterations` with
    /// escape threshold `threshold`.
    spec fn colour_of(&self, iterations: int, threshold: int) -> Pixel;

    /// Computes the policy's pixel for `iterations` out of `threshold`.
    fn colour(&self, iterations: u32, threshold: u32) -> (p: Pixel)
        requires
            threshold >= 1,
        ensures
            p == self.colour_of(iterations as int, threshold as int),
    ;
}

/// The default policy, backed by `my_colour_function`.
pub struct DefaultColour;

impl ColourPolicy for DefaultColour {
    open spec fn colour_of(&self, iterations: int, threshold: int) -> Pixel {
        colour_spec(iterations, threshold)
    }

    fn colour(&self, iterations: u32, threshold: u32) -> (p: Pixel) {
        my_colour_function(iterations, threshold)
    }
}

} // verus!
