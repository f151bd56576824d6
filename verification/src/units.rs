//! Fixed-point units and the scaling arithmetic that every stage shares.
//!
//! Levels, gains and samples are integer counts of millionths of full scale.
//! Durations are integer microseconds, frequencies integer microhertz. Time
//! inside the engine is counted in ticks of `1 / (sample_rate * UNIT)` seconds,
//! so that one sample period is `UNIT` ticks and one microsecond is
//! `sample_rate` ticks: both convert without rounding.
use vstd::arithmetic::div_mod::{lemma_div_is_ordered, lemma_div_multiples_vanish};
use vstd::prelude::*;

verus! {

/// Full scale: the fixed-point representation of 1.0.
pub const UNIT: u32 = 1_000_000;

/// A sample rate in hertz, known to be above zero.
pub struct SampleRate {
    hertz: u32,
}

impl SampleRate {
    #[verifier::type_invariant]
    spec fn positive(self) -> bool {
        self.hertz > 0
    }

    /// The rate in hertz.
    pub closed spec fn view(&self) -> nat {
        self.hertz as nat
    }

    /// Wraps a rate that is above zero.
    pub fn new(hertz: u32) -> (rate: SampleRate)
        requires
            hertz > 0,
        ensures
            rate@ == hertz,
    {
        SampleRate { hertz }
    }

    /// The rate in hertz.
    pub fn hertz(&self) -> (hertz: u32)
        ensures
            hertz == self@,
            hertz > 0,
    {
        proof {
            use_type_invariant(self);
        }
        self.hertz
    }
}

/// `x` multiplied by the ratio `num / den`, rounded toward negative infinity.
pub open spec fn scaled(x: int, num: int, den: int) -> int {
    (x * num) / den
}

/// `x` limited to the closed range from `low` to `high`.
pub open spec fn clamped(x: int, low: int, high: int) -> int {
    if x < low {
        low
    } else if x > high {
        high
    } else {
        x
    }
}

/// Ticks elapsed after `samples` sample periods.
pub open spec fn sample_ticks(samples: int) -> int {
    samples * UNIT
}

/// Ticks in `micros` microseconds at `sample_rate` samples per second.
pub open spec fn micro_ticks(micros: int, sample_rate: int) -> int {
    micros * sample_rate
}

/// Scaling by a ratio of at most one moves a value toward zero, never past it.
pub proof fn lemma_scaled_within(x: int, num: int, den: int)
    requires
        den > 0,
        0 <= num <= den,
    ensures
        x >= 0 ==> 0 <= scaled(x, num, den) <= x,
        x <= 0 ==> x <= scaled(x, num, den) <= 0,
{
    lemma_div_multiples_vanish(x, den);
    assert(den * x == x * den) by (nonlinear_arith);
    if x >= 0 {
        assert(0 <= x * num <= x * den) by (nonlinear_arith)
            requires
                x >= 0,
                0 <= num <= den,
        ;
        lemma_div_is_ordered(0, x * num, den);
        lemma_div_is_ordered(x * num, x * den, den);
    } else {
        assert(x * den <= x * num <= 0) by (nonlinear_arith)
            requires
                x <= 0,
                0 <= num <= den,
        ;
        lemma_div_is_ordered(x * num, 0, den);
        lemma_div_is_ordered(x * den, x * num, den);
    }
}

/// Scaling by a fixed non-negative ratio keeps the order of the values scaled.
pub proof fn lemma_scaled_ordered(x: int, y: int, num: int, den: int)
    requires
        den > 0,
        num >= 0,
        x <= y,
    ensures
        scaled(x, num, den) <= scaled(y, num, den),
{
    assert(x * num <= y * num) by (nonlinear_arith)
        requires
            x <= y,
            num >= 0,
    ;
    lemma_div_is_ordered(x * num, y * num, den);
}

/// A value within full scale, scaled by a gain in millionths, lies within the
/// gain.
pub proof fn lemma_gain_bounds(x: int, gain: int)
    requires
        -UNIT <= x <= UNIT,
        gain >= 0,
    ensures
        -gain <= scaled(x, gain, UNIT as int) <= gain,
{
    let one: int = UNIT as int;
    lemma_scaled_ordered(-one, x, gain, one);
    lemma_scaled_ordered(x, one, gain, one);
    lemma_div_multiples_vanish(gain, one);
    lemma_div_multiples_vanish(-gain, one);
    assert((-one) * gain == one * (-gain)) by (nonlinear_arith);
}

/// A quotient by a positive divisor lies between zero and its dividend.
pub proof fn lemma_quotient_within(w: int, den: int)
    requires
        den > 0,
    ensures
        w >= 0 ==> 0 <= w / den <= w,
        w <= 0 ==> w <= w / den <= 0,
{
    lemma_scaled_within(w, 1, den);
    assert(w * 1 == w);
}

/// Computes `scaled(x, num, den)` in 128-bit arithmetic.
pub(crate) fn mul_div(x: i128, num: u64, den: u64) -> (r: i128)
    requires
        den > 0,
        i128::MIN < x * num <= i128::MAX,
    ensures
        r == scaled(x as int, num as int, den as int),
{
    let wide: i128 = x * (num as i128);
    proof {
        lemma_quotient_within(wide as int, den as int);
    }
    match wide.checked_div_euclid(den as i128) {
        Some(q) => q,
        // Not reached: a quotient by a positive divisor always fits.
        None => 0,
    }
}

} // verus!
