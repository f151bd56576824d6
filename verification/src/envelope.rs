//! The two contour generators: a linear attack-decay-sustain-release envelope
//! and a one-shot exponential sweep.
//!
//! Both count elapsed time in whole samples and compare it with durations
//! given in microseconds. The comparison is made in ticks, where neither side
//! is rounded.
use crate::table::{DecayCurve, DecayTable};
use crate::units::{
    lemma_scaled_within, micro_ticks, mul_div, sample_ticks, scaled, SampleRate, UNIT,
};
use vstd::arithmetic::div_mod::{
    lemma_div_is_ordered, lemma_div_of0, lemma_fundamental_div_mod, lemma_mod_bound,
};
use vstd::prelude::*;

verus! {

/// How steeply the sweep approaches its end value: the exponent reached when
/// the whole duration has passed.
pub const SWEEP_STEEPNESS: u8 = 5;

/// The level of a held envelope `t` ticks after its trigger: a linear rise to
/// full scale over `attack` ticks, a linear fall to `sustain` over the next
/// `decay` ticks, and `sustain` from then on. A stage of no length is passed
/// over, so nothing is divided by zero.
pub open spec fn held_level(attack: int, decay: int, sustain: int, t: int) -> int {
    if t < attack {
        scaled(UNIT as int, t, attack)
    } else if t < attack + decay {
        UNIT - scaled(UNIT - sustain, t - attack, decay)
    } else {
        sustain
    }
}

/// The level of a released envelope `t` ticks after its release from `level`:
/// a linear fall to zero over `release` ticks, and zero from then on.
pub open spec fn released_level(level: int, release: int, t: int) -> int {
    if t < release {
        scaled(level, release - t, release)
    } else {
        0
    }
}

/// Whether the envelope is held open or has been let go.
pub enum Gate {
    /// Attack, decay or sustain, as elapsed time decides.
    Held,
    /// Let go at the sample count `since`, from the level `level`.
    Released { level: int, since: nat },
}

/// What an amplitude envelope is, mathematically.
pub struct AdsrModel {
    /// Microseconds.
    pub attack: nat,
    /// Microseconds.
    pub decay: nat,
    /// Millionths of full scale.
    pub sustain: nat,
    /// Microseconds.
    pub release: nat,
    /// Hertz.
    pub sample_rate: nat,
    /// Samples since the trigger.
    pub elapsed: nat,
    pub gate: Gate,
}

impl AdsrModel {
    /// The rate is above zero, every quantity fits the width the envelope
    /// stores it in, and a release does not lie in the future.
    pub open spec fn valid(self) -> bool {
        &&& self.attack <= u32::MAX
        &&& self.decay <= u32::MAX
        &&& self.sustain <= u32::MAX
        &&& self.release <= u32::MAX
        &&& 0 < self.sample_rate <= u32::MAX
        &&& self.elapsed <= u64::MAX
        &&& self.gate matches Gate::Released { level, since } ==> since <= self.elapsed && 0
            <= level <= u32::MAX
    }

    /// Elapsed time in ticks.
    pub open spec fn now(self) -> int {
        sample_ticks(self.elapsed as int)
    }

    /// The current level, in millionths of full scale.
    pub open spec fn level(self) -> int {
        match self.gate {
            Gate::Held => held_level(
                micro_ticks(self.attack as int, self.sample_rate as int),
                micro_ticks(self.decay as int, self.sample_rate as int),
                self.sustain as int,
                self.now(),
            ),
            Gate::Released { level, since } => released_level(
                level,
                micro_ticks(self.release as int, self.sample_rate as int),
                sample_ticks(self.elapsed - since),
            ),
        }
    }

    /// A released envelope is finished once its release time has passed; a
    /// held one never is.
    pub open spec fn finished(self) -> bool {
        match self.gate {
            Gate::Held => false,
            Gate::Released { level, since } => sample_ticks(self.elapsed - since) >= micro_ticks(
                self.release as int,
                self.sample_rate as int,
            ),
        }
    }

    /// The envelope restarted from the beginning of its attack.
    pub open spec fn triggered(self) -> AdsrModel {
        AdsrModel { elapsed: 0, gate: Gate::Held, ..self }
    }

    /// A held envelope let go at its current level and time; a released one
    /// unchanged.
    pub open spec fn released(self) -> AdsrModel {
        match self.gate {
            Gate::Held => AdsrModel {
                gate: Gate::Released { level: self.level(), since: self.elapsed },
                ..self
            },
            Gate::Released { .. } => self,
        }
    }

    /// The envelope one sample later. The count of samples stops at the
    /// largest that 64 bits hold.
    pub open spec fn advanced(self) -> AdsrModel {
        AdsrModel {
            elapsed: if self.elapsed < u64::MAX {
                self.elapsed + 1
            } else {
                self.elapsed
            },
            ..self
        }
    }

    /// The envelope `samples` samples later.
    pub open spec fn after(self, samples: nat) -> AdsrModel
        decreases samples,
    {
        if samples == 0 {
            self
        } else {
            self.advanced().after((samples - 1) as nat)
        }
    }
}

/// The level of a valid envelope is never negative, and never above a
/// ceiling that full scale, the sustain level and the level it was released
/// from all respect. With the largest 32-bit value for a ceiling this holds of
/// every valid envelope.
pub proof fn lemma_level_bounded(envelope: AdsrModel, ceiling: int)
    requires
        envelope.valid(),
        UNIT <= ceiling,
        envelope.sustain <= ceiling,
        envelope.gate matches Gate::Released { level, since } ==> level <= ceiling,
    ensures
        0 <= envelope.level() <= ceiling,
{
    let rate: int = envelope.sample_rate as int;
    match envelope.gate {
        Gate::Held => {
            let attack: int = micro_ticks(envelope.attack as int, rate);
            let decay: int = micro_ticks(envelope.decay as int, rate);
            let t: int = envelope.now();
            assert(t >= 0) by (nonlinear_arith)
                requires
                    t == envelope.elapsed * UNIT,
            ;
            if t < attack {
                lemma_scaled_within(UNIT as int, t, attack);
            } else if t < attack + decay {
                lemma_scaled_within(UNIT - envelope.sustain, t - attack, decay);
            }
        },
        Gate::Released { level, since } => {
            let release: int = micro_ticks(envelope.release as int, rate);
            let t: int = sample_ticks(envelope.elapsed - since);
            assert(t >= 0) by (nonlinear_arith)
                requires
                    t == (envelope.elapsed - since) * UNIT,
                    envelope.elapsed - since >= 0,
            ;
            if t < release {
                lemma_scaled_within(level, release - t, release);
            }
        },
    }
}

/// No operation on a valid envelope leaves it otherwise.
pub proof fn lemma_envelope_stays_valid(envelope: AdsrModel)
    requires
        envelope.valid(),
    ensures
        envelope.triggered().valid(),
        envelope.released().valid(),
        envelope.advanced().valid(),
{
    lemma_level_bounded(envelope, u32::MAX as int);
}

/// Across the boundary between attack and decay the level does not jump. At
/// the boundary it is full scale. On either side its distance from full scale
/// is the slope of the ramp times the distance to the boundary, to within one
/// count of rounding: `UNIT * (attack - t) / attack` before the boundary and
/// `(UNIT - sustain) * (t - attack) / decay` after it. Both go to zero as `t`
/// goes to `attack`.
///
/// A decay of no length is left out unless the sustain level is full scale:
/// there the level steps from the top of the attack straight to the sustain
/// level.
pub proof fn lemma_attack_meets_decay(attack: int, decay: int, sustain: int, t: int)
    requires
        attack >= 0,
        decay >= 0,
        decay > 0 || sustain == UNIT,
        0 <= t,
    ensures
        t == attack ==> held_level(attack, decay, sustain, t) == UNIT,
        t < attack ==> {
            let gap: int = UNIT - held_level(attack, decay, sustain, t);
            UNIT * (attack - t) <= gap * attack < UNIT * (attack - t) + attack
        },
        attack <= t < attack + decay ==> {
            let gap: int = UNIT - held_level(attack, decay, sustain, t);
            (UNIT - sustain) * (t - attack) - decay < gap * decay <= (UNIT - sustain) * (t - attack)
        },
{
    let one: int = UNIT as int;
    if t < attack {
        let level: int = (one * t) / attack;
        lemma_fundamental_div_mod(one * t, attack);
        lemma_mod_bound(one * t, attack);
        let rest: int = (one * t) % attack;
        assert((one - level) * attack == one * (attack - t) + rest) by (nonlinear_arith)
            requires
                one * t == attack * level + rest,
        ;
    } else if t < attack + decay {
        let fall: int = (one - sustain) * (t - attack);
        let gap: int = fall / decay;
        lemma_fundamental_div_mod(fall, decay);
        lemma_mod_bound(fall, decay);
        assert(gap * decay == decay * gap) by (nonlinear_arith);
        if t == attack {
            assert(fall == 0) by (nonlinear_arith)
                requires
                    fall == (one - sustain) * (t - attack),
                    t == attack,
            ;
        }
    }
}

/// From the end of the decay on, a held envelope stands at its sustain level.
pub proof fn lemma_sustain_reached(attack: int, decay: int, sustain: int, t: int)
    requires
        attack >= 0,
        decay >= 0,
        t >= attack + decay,
    ensures
        held_level(attack, decay, sustain, t) == sustain,
{
}

/// A held envelope that has reached the end of its decay gives its sustain
/// level, and goes on giving it however many samples pass.
pub proof fn lemma_sustain_holds(envelope: AdsrModel, samples: nat)
    requires
        envelope.gate is Held,
        envelope.now() >= micro_ticks(envelope.attack as int, envelope.sample_rate as int)
            + micro_ticks(envelope.decay as int, envelope.sample_rate as int),
    ensures
        envelope.after(samples).gate is Held,
        envelope.after(samples).level() == envelope.sustain,
    decreases samples,
{
    let attack: int = micro_ticks(envelope.attack as int, envelope.sample_rate as int);
    let decay: int = micro_ticks(envelope.decay as int, envelope.sample_rate as int);
    assert(attack >= 0 && decay >= 0) by (nonlinear_arith)
        requires
            attack == envelope.attack * envelope.sample_rate,
            decay == envelope.decay * envelope.sample_rate,
    ;
    if samples == 0 {
        lemma_sustain_reached(attack, decay, envelope.sustain as int, envelope.now());
    } else {
        let next: AdsrModel = envelope.advanced();
        assert(next.now() >= envelope.now()) by (nonlinear_arith)
            requires
                next.elapsed >= envelope.elapsed,
                next.now() == next.elapsed * UNIT,
                envelope.now() == envelope.elapsed * UNIT,
        ;
        lemma_sustain_holds(next, (samples - 1) as nat);
    }
}

/// Ticks in `micros` microseconds at `sample_rate` hertz.
fn ticks_in(micros: u32, sample_rate: u32) -> (ticks: u64)
    ensures
        ticks == micro_ticks(micros as int, sample_rate as int),
{
    assert(0 <= micros * sample_rate <= u64::MAX) by (nonlinear_arith)
        requires
            0 <= micros <= u32::MAX,
            0 <= sample_rate <= u32::MAX,
    ;
    (micros as u64) * (sample_rate as u64)
}

/// Ticks in `samples` sample periods.
fn ticks_after(samples: u64) -> (ticks: u128)
    ensures
        ticks == sample_ticks(samples as int),
{
    assert(samples * UNIT == samples * 1_000_000);
    (samples as u128) * (UNIT as u128)
}

/// A four-stage amplitude contour driven by a count of elapsed samples.
pub struct ADSREnvelope {
    attack_time: u32,
    decay_time: u32,
    sustain_level: u32,
    release_time: u32,
    sample_rate: u32,
    current_time: u64,
    is_active: bool,
    release_start_level: u32,
    release_start_time: u64,
}

impl ADSREnvelope {
    #[verifier::type_invariant]
    spec fn well_formed(self) -> bool {
        &&& self.sample_rate > 0
        &&& !self.is_active ==> self.release_start_time <= self.current_time
    }

    pub closed spec fn view(&self) -> AdsrModel {
        AdsrModel {
            attack: self.attack_time as nat,
            decay: self.decay_time as nat,
            sustain: self.sustain_level as nat,
            release: self.release_time as nat,
            sample_rate: self.sample_rate as nat,
            elapsed: self.current_time as nat,
            gate: if self.is_active {
                Gate::Held
            } else {
                Gate::Released {
                    level: self.release_start_level as int,
                    since: self.release_start_time as nat,
                }
            },
        }
    }

    /// An envelope at time zero that has not been triggered: it is released
    /// from level zero, so it is silent. Times are in microseconds,
    /// `sustain_level` in millionths of full scale, `sample_rate` in hertz and
    /// above zero.
    pub fn new(
        attack_time: u32,
        decay_time: u32,
        sustain_level: u32,
        release_time: u32,
        sample_rate: u32,
    ) -> (envelope: ADSREnvelope)
        requires
            sample_rate > 0,
        ensures
            envelope@ == (AdsrModel {
                attack: attack_time as nat,
                decay: decay_time as nat,
                sustain: sustain_level as nat,
                release: release_time as nat,
                sample_rate: sample_rate as nat,
                elapsed: 0,
                gate: Gate::Released { level: 0, since: 0 },
            }),
            envelope@.valid(),
    {
        ADSREnvelope {
            attack_time,
            decay_time,
            sustain_level,
            release_time,
            sample_rate,
            current_time: 0,
            is_active: false,
            release_start_level: 0,
            release_start_time: 0,
        }
    }

    /// Restarts the envelope from the beginning of its attack, whatever state
    /// it was in.
    pub fn trigger(&mut self)
        ensures
            final(self)@ == old(self)@.triggered(),
    {
        proof {
            use_type_invariant(&*self);
        }
        self.is_active = true;
        self.current_time = 0;
    }

    /// Lets a held envelope go: its level and time at this moment become the
    /// start of the release ramp. A released envelope is left as it is.
    pub fn release(&mut self)
        ensures
            final(self)@ == old(self)@.released(),
    {
        proof {
            use_type_invariant(&*self);
        }
        if self.is_active {
            let level: u32 = self.get_value();
            self.release_start_level = level;
            self.release_start_time = self.current_time;
            self.is_active = false;
        }
    }

    /// The current level, in millionths of full scale.
    pub fn get_value(&self) -> (level: u32)
        ensures
            level == self@.level(),
    {
        proof {
            use_type_invariant(self);
            lemma_level_bounded(self@, u32::MAX as int);
        }
        if self.is_active {
            let now: u128 = ticks_after(self.current_time);
            let attack: u64 = ticks_in(self.attack_time, self.sample_rate);
            let decay: u64 = ticks_in(self.decay_time, self.sample_rate);
            if now < attack as u128 {
                let level: i128 = mul_div(UNIT as i128, now as u64, attack);
                level as u32
            } else if now < (attack as u128) + (decay as u128) {
                let into: u64 = (now - (attack as u128)) as u64;
                let fall: i128 = (UNIT as i128) - (self.sustain_level as i128);
                assert(i128::MIN < fall * into <= i128::MAX) by (nonlinear_arith)
                    requires
                        -0x1_0000_0000 <= fall <= 0x1_0000_0000,
                        0 <= into <= u64::MAX,
                ;
                let fallen: i128 = mul_div(fall, into, decay);
                ((UNIT as i128) - fallen) as u32
            } else {
                self.sustain_level
            }
        } else {
            let since: u128 = ticks_after(self.current_time - self.release_start_time);
            let release: u64 = ticks_in(self.release_time, self.sample_rate);
            if since < release as u128 {
                let left: u64 = release - (since as u64);
                assert(0 <= self.release_start_level * left <= i128::MAX) by (nonlinear_arith)
                    requires
                        0 <= self.release_start_level <= u32::MAX,
                        0 <= left <= u64::MAX,
                ;
                let level: i128 = mul_div(self.release_start_level as i128, left, release);
                level as u32
            } else {
                0
            }
        }
    }

    /// Moves time on by one sample period.
    pub fn advance(&mut self)
        ensures
            final(self)@ == old(self)@.advanced(),
    {
        proof {
            use_type_invariant(&*self);
        }
        if self.current_time < u64::MAX {
            self.current_time = self.current_time + 1;
        }
    }

    /// Samples elapsed since the trigger.
    pub fn current_time(&self) -> (samples: u64)
        ensures
            samples == self@.elapsed,
    {
        self.current_time
    }

    /// Whether the envelope is held open: in attack, decay or sustain.
    pub fn is_active(&self) -> (held: bool)
        ensures
            held == (self@.gate is Held),
    {
        self.is_active
    }

    /// Whether the envelope has been released and its release time has passed.
    pub fn is_finished(&self) -> (finished: bool)
        ensures
            finished == self@.finished(),
    {
        proof {
            use_type_invariant(self);
        }
        if self.is_active {
            false
        } else {
            let since: u128 = ticks_after(self.current_time - self.release_start_time);
            let release: u64 = ticks_in(self.release_time, self.sample_rate);
            since >= release as u128
        }
    }
}

/// What a sweep is, mathematically.
pub struct SweepModel {
    pub start: int,
    pub end: int,
    /// Microseconds.
    pub duration: nat,
    /// Hertz.
    pub sample_rate: nat,
    /// Samples since the last reset.
    pub elapsed: nat,
}

impl SweepModel {
    /// The rate is above zero, and every quantity fits the width the sweep
    /// stores it in.
    pub open spec fn valid(self) -> bool {
        &&& i64::MIN <= self.start <= i64::MAX
        &&& i64::MIN <= self.end <= i64::MAX
        &&& self.duration <= u32::MAX
        &&& 0 < self.sample_rate <= u32::MAX
        &&& self.elapsed <= u64::MAX
    }

    /// Elapsed time in ticks.
    pub open spec fn now(self) -> int {
        sample_ticks(self.elapsed as int)
    }

    /// The duration in ticks.
    pub open spec fn length(self) -> int {
        micro_ticks(self.duration as int, self.sample_rate as int)
    }

    /// How far the sweep has gone from start to end, in millionths, when the
    /// decay `e^(-x)` is read from `curve`: `1 - e^(-5 * progress)`.
    pub open spec fn travel(self, curve: DecayCurve) -> int {
        UNIT - curve.decay(SWEEP_STEEPNESS as int, self.now(), self.length())
    }

    /// The current value: the end value once the duration has passed (at once,
    /// if the duration is zero), and before that the start value moved toward
    /// the end value by the fraction `travel`.
    pub open spec fn value(self, curve: DecayCurve) -> int {
        if self.now() >= self.length() {
            self.end
        } else {
            self.start + scaled(self.end - self.start, self.travel(curve), UNIT as int)
        }
    }

    /// The sweep one sample later. The count of samples stops at the largest
    /// that 64 bits hold.
    pub open spec fn advanced(self) -> SweepModel {
        SweepModel {
            elapsed: if self.elapsed < u64::MAX {
                self.elapsed + 1
            } else {
                self.elapsed
            },
            ..self
        }
    }

    /// The sweep back at time zero.
    pub open spec fn rewound(self) -> SweepModel {
        SweepModel { elapsed: 0, ..self }
    }
}

/// The value of a sweep never leaves the range between its start and its end.
pub proof fn lemma_sweep_between(sweep: SweepModel, curve: DecayCurve)
    requires
        curve.valid(),
    ensures
        sweep.start <= sweep.end ==> sweep.start <= sweep.value(curve) <= sweep.end,
        sweep.end <= sweep.start ==> sweep.end <= sweep.value(curve) <= sweep.start,
{
    if sweep.now() < sweep.length() {
        let i: int = curve.index(SWEEP_STEEPNESS as int, sweep.now(), sweep.length());
        if 0 <= i < curve.samples.len() {
            assert(curve.samples[i] <= curve.samples[0]);
        }
        lemma_scaled_within(sweep.end - sweep.start, sweep.travel(curve), UNIT as int);
    }
}

/// A sweep gives its start value at time zero and its end value from the end
/// of its duration on. A sweep of no length is at its end value from the
/// outset, so the first holds of it only where the two values are one.
pub proof fn lemma_sweep_ends(sweep: SweepModel, curve: DecayCurve)
    requires
        curve.valid(),
    ensures
        sweep.elapsed == 0 && (sweep.length() > 0 || sweep.start == sweep.end) ==> sweep.value(
            curve,
        ) == sweep.start,
        sweep.now() >= sweep.length() ==> sweep.value(curve) == sweep.end,
{
    if sweep.elapsed == 0 && sweep.length() > 0 {
        let rate: int = SWEEP_STEEPNESS * curve.resolution;
        assert(sweep.now() == 0);
        assert(rate * 0 == 0);
        assert(curve.index(SWEEP_STEEPNESS as int, 0, sweep.length()) == 0) by {
            lemma_div_of0(sweep.length());
        }
        assert(sweep.travel(curve) == 0);
        assert((sweep.end - sweep.start) * 0 == 0);
    }
}

/// As time passes a sweep moves toward its end value and never back.
pub proof fn lemma_sweep_monotonic(earlier: SweepModel, later: SweepModel, curve: DecayCurve)
    requires
        curve.valid(),
        earlier.elapsed <= later.elapsed,
        later == (SweepModel { elapsed: later.elapsed, ..earlier }),
    ensures
        earlier.start <= earlier.end ==> earlier.value(curve) <= later.value(curve),
        earlier.end <= earlier.start ==> later.value(curve) <= earlier.value(curve),
{
    let length: int = earlier.length();
    let one: int = UNIT as int;
    lemma_sweep_between(earlier, curve);
    assert(0 <= earlier.now() <= later.now()) by (nonlinear_arith)
        requires
            0 <= earlier.elapsed <= later.elapsed,
            earlier.now() == earlier.elapsed * UNIT,
            later.now() == later.elapsed * UNIT,
    ;
    if later.now() < length {
        let rate: int = SWEEP_STEEPNESS * curve.resolution;
        let first: int = curve.index(SWEEP_STEEPNESS as int, earlier.now(), length);
        let second: int = curve.index(SWEEP_STEEPNESS as int, later.now(), length);
        assert(0 <= rate * earlier.now() <= rate * later.now()) by (nonlinear_arith)
            requires
                0 <= rate,
                0 <= earlier.now() <= later.now(),
        ;
        lemma_div_is_ordered(0, rate * earlier.now(), length);
        lemma_div_is_ordered(rate * earlier.now(), rate * later.now(), length);
        lemma_div_of0(length);
        assert(0 <= first <= second);
        if second < curve.samples.len() {
            assert(curve.samples[second] <= curve.samples[first]);
        }
        if first < curve.samples.len() {
            assert(curve.samples[first] <= curve.samples[0]);
        }
        let near: int = earlier.travel(curve);
        let far: int = later.travel(curve);
        assert(0 <= near <= far <= one);
        let span: int = earlier.end - earlier.start;
        if span >= 0 {
            assert(span * near <= span * far) by (nonlinear_arith)
                requires
                    span >= 0,
                    near <= far,
            ;
            lemma_div_is_ordered(span * near, span * far, one);
        }
        if span <= 0 {
            assert(span * far <= span * near) by (nonlinear_arith)
                requires
                    span <= 0,
                    near <= far,
            ;
            lemma_div_is_ordered(span * far, span * near, one);
        }
    }
}

/// A one-shot exponential glide from a start value to an end value.
pub struct ExponentialEnvelope {
    start_value: i64,
    end_value: i64,
    duration: u32,
    sample_rate: SampleRate,
    current_time: u64,
}

impl ExponentialEnvelope {
    pub closed spec fn view(&self) -> SweepModel {
        SweepModel {
            start: self.start_value as int,
            end: self.end_value as int,
            duration: self.duration as nat,
            sample_rate: self.sample_rate@,
            elapsed: self.current_time as nat,
        }
    }

    /// A sweep at time zero. `duration` is in microseconds, `sample_rate` in
    /// hertz and above zero; the two values are in whatever unit the caller
    /// sweeps.
    pub fn new(start_value: i64, end_value: i64, duration: u32, sample_rate: u32) -> (envelope:
        ExponentialEnvelope)
        requires
            sample_rate > 0,
        ensures
            envelope@ == (SweepModel {
                start: start_value as int,
                end: end_value as int,
                duration: duration as nat,
                sample_rate: sample_rate as nat,
                elapsed: 0,
            }),
            envelope@.valid(),
    {
        ExponentialEnvelope {
            start_value,
            end_value,
            duration,
            sample_rate: SampleRate::new(sample_rate),
            current_time: 0,
        }
    }

    /// The current value, with the decay read from `curve`.
    pub fn get_value(&self, curve: &DecayTable) -> (value: i64)
        ensures
            value == self@.value(curve@),
    {
        let now: u128 = ticks_after(self.current_time);
        let length: u64 = ticks_in(self.duration, self.sample_rate.hertz());
        if now >= length as u128 {
            return self.end_value;
        }
        let decay: u32 = curve.decay(SWEEP_STEEPNESS, now as u64, length);
        let travel: u64 = (UNIT - decay) as u64;
        let span: i128 = (self.end_value as i128) - (self.start_value as i128);
        proof {
            assert(i128::MIN < span * travel <= i128::MAX) by (nonlinear_arith)
                requires
                    -0x1_0000_0000_0000_0000 <= span <= 0x1_0000_0000_0000_0000,
                    0 <= travel <= 1_000_000,
            ;
            lemma_scaled_within(span as int, travel as int, UNIT as int);
        }
        let moved: i128 = mul_div(span, travel, UNIT as u64);
        ((self.start_value as i128) + moved) as i64
    }

    /// Moves time on by one sample period.
    pub fn advance(&mut self)
        ensures
            final(self)@ == old(self)@.advanced(),
    {
        if self.current_time < u64::MAX {
            self.current_time = self.current_time + 1;
        }
    }

    /// Returns to time zero.
    pub fn reset(&mut self)
        ensures
            final(self)@ == old(self)@.rewound(),
    {
        self.current_time = 0;
    }

    /// Samples elapsed since the last reset.
    pub fn current_time(&self) -> (samples: u64)
        ensures
            samples == self@.elapsed,
    {
        self.current_time
    }
}

} // verus!
