//! The phase-accumulating tone generator.
use crate::table::{wave_value, Wavetable};
use crate::units::{clamped, SampleRate, UNIT};
use vstd::prelude::*;

verus! {

/// What an oscillator is, mathematically: a sample rate in hertz and a phase
/// counted in units of `1 / (sample_rate * UNIT)` of a cycle, so that adding a
/// frequency in microhertz advances the phase by one sample period exactly.
pub struct OscillatorModel {
    pub sample_rate: nat,
    pub phase: int,
}

impl OscillatorModel {
    /// Phase units in one whole cycle.
    pub open spec fn cycle(self) -> int {
        self.sample_rate * UNIT
    }

    /// The rate is above zero, and rate and phase fit the widths the
    /// oscillator stores them in.
    pub open spec fn valid(self) -> bool {
        &&& 0 < self.sample_rate <= u32::MAX
        &&& i64::MIN <= self.phase <= i64::MAX
    }

    /// The phase lies inside one cycle, zero included and the cycle's end not.
    pub open spec fn in_cycle(self) -> bool {
        0 <= self.phase < self.cycle()
    }

    /// Where the phase stands one sample period later at `frequency`: moved on
    /// by the frequency, taken back by one cycle if that reached the cycle's
    /// end, and held at the limits of a 64-bit count.
    pub open spec fn next_phase(self, frequency: int) -> int {
        let sum: int = self.phase + frequency;
        let wrapped: int = if sum >= self.cycle() {
            sum - self.cycle()
        } else {
            sum
        };
        clamped(wrapped, i64::MIN as int, i64::MAX as int)
    }

    /// The oscillator after one sample at `frequency`.
    pub open spec fn advanced(self, frequency: int) -> OscillatorModel {
        OscillatorModel { phase: self.next_phase(frequency), ..self }
    }

    /// The oscillator with its phase back at the start of the cycle.
    pub open spec fn rewound(self) -> OscillatorModel {
        OscillatorModel { phase: 0, ..self }
    }

    /// Whether every one of the steps at `frequencies` carries the phase
    /// neither below zero nor a whole cycle past the cycle's end.
    pub open spec fn steps_fit(self, frequencies: Seq<int>) -> bool
        decreases frequencies.len(),
    {
        frequencies.len() > 0 ==> {
            &&& 0 <= self.phase + frequencies[0] < 2 * self.cycle()
            &&& self.advanced(frequencies[0]).steps_fit(frequencies.skip(1))
        }
    }

    /// The oscillator after one sample at each of `frequencies` in turn.
    pub open spec fn run(self, frequencies: Seq<int>) -> OscillatorModel
        decreases frequencies.len(),
    {
        if frequencies.len() == 0 {
            self
        } else {
            self.advanced(frequencies[0]).run(frequencies.skip(1))
        }
    }
}

/// A tone generator that reads a waveform table at its phase.
pub struct Oscillator {
    sample_rate: SampleRate,
    phase: i64,
}

impl Oscillator {
    pub closed spec fn view(&self) -> OscillatorModel {
        OscillatorModel { sample_rate: self.sample_rate@, phase: self.phase as int }
    }

    /// An oscillator at the start of its cycle.
    pub fn new(sample_rate: u32) -> (oscillator: Oscillator)
        requires
            sample_rate > 0,
        ensures
            oscillator@ == (OscillatorModel { sample_rate: sample_rate as nat, phase: 0 }),
            oscillator@.valid(),
            oscillator@.in_cycle(),
    {
        assert(sample_rate * UNIT == sample_rate * 1_000_000);
        Oscillator { sample_rate: SampleRate::new(sample_rate), phase: 0 }
    }

    /// Returns the sample of `wave` at the current phase, then advances the
    /// phase by one sample period at `frequency` microhertz.
    pub fn sine(&mut self, frequency: i64, wave: &Wavetable) -> (sample: i32)
        ensures
            sample == wave_value(wave@, old(self)@.phase, old(self)@.cycle()),
            -UNIT <= sample <= UNIT,
            final(self)@ == old(self)@.advanced(frequency as int),
    {
        let rate: u32 = self.sample_rate.hertz();
        assert(rate * UNIT == rate * 1_000_000);
        let cycle: i64 = (rate as i64) * (UNIT as i64);
        let sample: i32 = wave.value(self.phase, cycle);
        let sum: i128 = (self.phase as i128) + (frequency as i128);
        let wrapped: i128 = if sum >= cycle as i128 {
            sum - (cycle as i128)
        } else {
            sum
        };
        self.phase = if wrapped < i64::MIN as i128 {
            i64::MIN
        } else if wrapped > i64::MAX as i128 {
            i64::MAX
        } else {
            wrapped as i64
        };
        sample
    }

    /// Sets the phase back to the start of the cycle.
    pub fn reset(&mut self)
        ensures
            final(self)@ == old(self)@.rewound(),
    {
        self.phase = 0;
    }

    /// The current phase, in units of `1 / (sample_rate * UNIT)` of a cycle.
    pub fn phase(&self) -> (phase: i64)
        ensures
            phase == self@.phase,
    {
        self.phase
    }
}

/// A step from inside the cycle lands inside the cycle exactly when the
/// frequency carries the phase neither below zero nor a whole cycle past the
/// cycle's end.
pub proof fn lemma_step_stays_in_cycle(oscillator: OscillatorModel, frequency: int)
    requires
        oscillator.valid(),
        oscillator.in_cycle(),
    ensures
        oscillator.advanced(frequency).in_cycle() <==> 0 <= oscillator.phase + frequency < 2
            * oscillator.cycle(),
{
}

/// However many samples an oscillator produces, its phase stays inside one
/// cycle, provided it started there and no step carried it below zero or a
/// whole cycle past the cycle's end. A step that does either leaves the cycle:
/// the phase is taken back by one cycle at most, and never brought up.
pub proof fn lemma_phase_stays_in_cycle(oscillator: OscillatorModel, frequencies: Seq<int>)
    requires
        oscillator.valid(),
        oscillator.in_cycle(),
        oscillator.steps_fit(frequencies),
    ensures
        oscillator.run(frequencies).in_cycle(),
    decreases frequencies.len(),
{
    if frequencies.len() > 0 {
        lemma_step_stays_in_cycle(oscillator, frequencies[0]);
        lemma_phase_stays_in_cycle(oscillator.advanced(frequencies[0]), frequencies.skip(1));
    }
}

/// Frequencies from zero up to the sample rate never carry the phase out of
/// the cycle.
pub proof fn lemma_steps_below_rate_fit(oscillator: OscillatorModel, frequencies: Seq<int>)
    requires
        oscillator.valid(),
        oscillator.in_cycle(),
        forall|i: int|
            0 <= i < frequencies.len() ==> 0 <= #[trigger] frequencies[i] < oscillator.cycle(),
    ensures
        oscillator.steps_fit(frequencies),
    decreases frequencies.len(),
{
    if frequencies.len() > 0 {
        let next: OscillatorModel = oscillator.advanced(frequencies[0]);
        let rest: Seq<int> = frequencies.skip(1);
        assert forall|i: int| 0 <= i < rest.len() implies 0 <= #[trigger] rest[i] < next.cycle() by {
            assert(rest[i] == frequencies[i + 1]);
        }
        lemma_steps_below_rate_fit(next, rest);
    }
}

} // verus!
