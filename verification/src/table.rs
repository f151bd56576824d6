//! Tabulated curves: one cycle of a waveform, and the decay `e^(-x)`.
//!
//! The engine does no transcendental arithmetic of its own. Whoever builds a
//! voice supplies both curves as fixed-point samples; how a phase or an
//! exponent selects a sample is defined, and proved, here.
use crate::units::{lemma_scaled_within, mul_div, scaled, UNIT};
use vstd::arithmetic::div_mod::{lemma_mod_bound, lemma_multiply_divide_lt};
use vstd::prelude::*;

verus! {

/// A waveform table holds at least one sample and none beyond full scale.
pub open spec fn wave_valid(samples: Seq<i32>) -> bool {
    &&& samples.len() > 0
    &&& forall|i: int| 0 <= i < samples.len() ==> -UNIT <= #[trigger] samples[i] <= UNIT
}

/// The table position that `phase` selects, where `cycle` phase units make one
/// period. The waveform repeats: any phase, negative or beyond one period,
/// selects by its fractional part.
pub open spec fn wave_index(phase: int, cycle: int, len: int) -> int {
    scaled(phase % cycle, len, cycle)
}

/// The sample of `samples` at `phase`.
pub open spec fn wave_value(samples: Seq<i32>, phase: int, cycle: int) -> int {
    samples[wave_index(phase, cycle, samples.len() as int)] as int
}

/// Every phase selects a position inside the table.
pub proof fn lemma_wave_index_in_table(phase: int, cycle: int, len: int)
    requires
        cycle > 0,
        len > 0,
    ensures
        0 <= wave_index(phase, cycle, len) < len,
{
    lemma_mod_bound(phase, cycle);
    let pos: int = phase % cycle;
    assert(0 <= pos * len < cycle * len) by (nonlinear_arith)
        requires
            0 <= pos < cycle,
            len > 0,
    ;
    lemma_multiply_divide_lt(pos * len, cycle, len);
    lemma_scaled_within(pos * len, 1, cycle);
    assert((pos * len) * 1 == pos * len);
}

/// One period of a waveform, sampled at equal steps of phase.
pub struct Wavetable {
    samples: Vec<i32>,
}

impl Wavetable {
    #[verifier::type_invariant]
    pub closed spec fn well_formed(self) -> bool {
        wave_valid(self.samples@)
    }

    /// What being well formed means for the samples.
    pub proof fn lemma_valid(self)
        requires
            self.well_formed(),
        ensures
            wave_valid(self@),
    {
    }

    /// The samples, in order of phase.
    pub closed spec fn view(&self) -> Seq<i32> {
        self.samples@
    }

    /// Accepts `samples` as a waveform exactly when they are valid as one.
    pub fn new(samples: Vec<i32>) -> (table: Option<Wavetable>)
        ensures
            table.is_some() <==> wave_valid(samples@),
            table matches Some(t) ==> t@ == samples@,
    {
        let n: usize = samples.len();
        if n == 0 {
            return None;
        }
        let mut i: usize = 0;
        while i < n
            invariant
                n == samples@.len(),
                i <= n,
                forall|j: int| 0 <= j < i ==> -UNIT <= #[trigger] samples@[j] <= UNIT,
            decreases n - i,
        {
            let s: i32 = samples[i];
            if s < -(UNIT as i32) || s > UNIT as i32 {
                return None;
            }
            i = i + 1;
        }
        Some(Wavetable { samples })
    }

    /// The sample at `phase`, where `cycle` phase units make one period.
    pub(crate) fn value(&self, phase: i64, cycle: i64) -> (sample: i32)
        requires
            cycle > 0,
        ensures
            sample == wave_value(self@, phase as int, cycle as int),
            -UNIT <= sample <= UNIT,
    {
        proof {
            use_type_invariant(self);
            lemma_mod_bound(phase as int, cycle as int);
            lemma_wave_index_in_table(phase as int, cycle as int, self.samples@.len() as int);
        }
        let pos: i64 = match phase.checked_rem_euclid(cycle) {
            Some(r) => r,
            // Not reached: the divisor is above zero.
            None => 0,
        };
        let len: u64 = self.samples.len() as u64;
        assert(0 <= pos * len <= i128::MAX) by (nonlinear_arith)
            requires
                0 <= pos <= i64::MAX,
                0 <= len <= u64::MAX,
        ;
        let index: i128 = mul_div(pos as i128, len, cycle as u64);
        self.samples[index as usize]
    }
}

/// The decay `e^(-x)` sampled at equal steps of `x`: sample `k` stands for
/// `x = k / resolution`. Past the last sample the curve counts as fully decayed.
pub struct DecayCurve {
    pub samples: Seq<u32>,
    pub resolution: nat,
}

impl DecayCurve {
    /// A decay starts at full scale and never rises.
    pub open spec fn valid(self) -> bool {
        &&& self.samples.len() > 0
        &&& self.samples[0] == UNIT
        &&& forall|i: int, j: int|
            0 <= i <= j < self.samples.len() ==> #[trigger] self.samples[j] <= #[trigger] self.samples[i]
    }

    /// The table position for the exponent `steepness * num / den`.
    pub open spec fn index(self, steepness: int, num: int, den: int) -> int {
        scaled(steepness * self.resolution, num, den)
    }

    /// The decay factor at the exponent `steepness * num / den`.
    pub open spec fn decay(self, steepness: int, num: int, den: int) -> int {
        let i: int = self.index(steepness, num, den);
        if 0 <= i < self.samples.len() {
            self.samples[i] as int
        } else {
            0
        }
    }
}

/// An owned, validated decay table.
pub struct DecayTable {
    samples: Vec<u32>,
    resolution: u32,
}

impl DecayTable {
    #[verifier::type_invariant]
    pub closed spec fn well_formed(self) -> bool {
        self.view().valid()
    }

    /// What being well formed means for the curve.
    pub proof fn lemma_valid(self)
        requires
            self.well_formed(),
        ensures
            self@.valid(),
    {
    }

    /// The curve that the table tabulates.
    pub closed spec fn view(&self) -> DecayCurve {
        DecayCurve { samples: self.samples@, resolution: self.resolution as nat }
    }

    /// Accepts `samples`, taken `resolution` to the unit of exponent, exactly
    /// when they form a valid decay.
    pub fn new(samples: Vec<u32>, resolution: u32) -> (table: Option<DecayTable>)
        ensures
            table.is_some() <==> (DecayCurve { samples: samples@, resolution: resolution as nat }).valid(),
            table matches Some(t) ==> t@ == (DecayCurve {
                samples: samples@,
                resolution: resolution as nat,
            }),
    {
        let n: usize = samples.len();
        if n == 0 || samples[0] != UNIT {
            return None;
        }
        let mut i: usize = 1;
        while i < n
            invariant
                n == samples@.len(),
                1 <= i <= n,
                forall|a: int, b: int|
                    0 <= a <= b < i ==> #[trigger] samples@[b] <= #[trigger] samples@[a],
            decreases n - i,
        {
            if samples[i] > samples[i - 1] {
                return None;
            }
            assert forall|a: int, b: int| 0 <= a <= b < i + 1 implies #[trigger] samples@[b]
                <= #[trigger] samples@[a] by {
                if b == i && a < i {
                    assert(samples@[i - 1] <= samples@[a]);
                }
            }
            i = i + 1;
        }
        Some(DecayTable { samples, resolution })
    }

    /// The decay factor at the exponent `steepness * num / den`.
    pub(crate) fn decay(&self, steepness: u8, num: u64, den: u64) -> (factor: u32)
        requires
            den > 0,
        ensures
            factor == self@.decay(steepness as int, num as int, den as int),
            factor <= UNIT,
    {
        proof {
            use_type_invariant(self);
        }
        assert(0 <= steepness * self.resolution <= 0xff * 0xffff_ffff) by (nonlinear_arith)
            requires
                0 <= steepness <= 0xff,
                0 <= self.resolution <= 0xffff_ffff,
        ;
        let rate: u64 = (steepness as u64) * (self.resolution as u64);
        assert(0 <= rate * num <= i128::MAX) by (nonlinear_arith)
            requires
                0 <= rate <= 0xff * 0xffff_ffff,
                0 <= num <= u64::MAX,
        ;
        let index: i128 = mul_div(rate as i128, num, den);
        if 0 <= index && index < self.samples.len() as i128 {
            let factor: u32 = self.samples[index as usize];
            assert(self.samples@[index as int] <= self.samples@[0]);
            factor
        } else {
            0
        }
    }
}

} // verus!
